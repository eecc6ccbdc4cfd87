use anonify::attestation::{
    is_report, parse_validate, ASResponse, ASResult, AVReport, AttestationService, Exchange,
    Progress,
};
use anonify::error::HostError;
use anonify::quote::{Quote, QuoteBody, ReportBody};

fn bytes(n: usize) -> Vec<u8> {
    (0..n).map(|i| (i % 251) as u8).collect()
}

fn response(id: i64) -> ASResponse {
    ASResponse {
        id,
        jsonrpc: "2.0".to_string(),
        result: ASResult {
            ca: String::new(),
            cert: String::new(),
            report: AVReport::default(),
            report_str: String::new(),
            sig: String::new(),
            validate: true,
        },
    }
}

#[test]
fn quote_body_reads_its_fields() {
    let input = bytes(48);
    let body = QuoteBody::read(&input).unwrap();
    assert_eq!(body.version(), &[0u8, 1]);
    assert_eq!(body.sig_type(), &[2u8, 3]);
    assert_eq!(body.gid(), &[4u8, 5, 6, 7]);
    assert_eq!(body.isv_svn_qe(), &[8u8, 9]);
    assert_eq!(body.isv_svn_pce(), &[10u8, 11]);
    assert_eq!(&body.base_name()[..], &input[16..48]);
    assert!(QuoteBody::default() == QuoteBody::read(&[0u8; 48]).unwrap());
}

#[test]
fn quote_body_rejects_other_lengths() {
    assert_eq!(QuoteBody::read(&bytes(47)).err(), Some(HostError::UnexpectedEof));
    assert_eq!(QuoteBody::read(&[]).err(), Some(HostError::UnexpectedEof));
    assert_eq!(QuoteBody::read(&bytes(49)).err(), Some(HostError::QuoteBodyTooBig));
}

#[test]
fn report_body_reads_its_fields() {
    let input = bytes(384);
    let body = ReportBody::read(&input).unwrap();
    assert_eq!(&body.mr_enclave()[..], &input[64..96]);
    assert_eq!(&body.mr_signer()[..], &input[128..160]);
    assert_eq!(&body.report_data()[..], &input[320..384]);
    assert_eq!(ReportBody::default().report_data(), &[0u8; 64]);
}

#[test]
fn report_body_rejects_other_lengths() {
    assert_eq!(ReportBody::read(&bytes(383)).err(), Some(HostError::UnexpectedEof));
    assert_eq!(ReportBody::read(&bytes(385)).err(), Some(HostError::ReportBodyTooBig));
}

#[test]
fn quote_is_read_from_the_first_432_bytes() {
    let input = bytes(500);
    let quote = Quote::try_from(&input).unwrap();
    assert_eq!(quote.quote_body().gid(), &[4u8, 5, 6, 7]);
    assert_eq!(&quote.report_body().mr_enclave()[..], &input[48 + 64..48 + 96]);
    assert!(Quote::try_from(&bytes(432)).is_ok());
    assert_eq!(Quote::try_from(&bytes(431)).err(), Some(HostError::UnexpectedEof));
}

#[test]
fn host_error_messages() {
    assert_eq!(HostError::QuoteBodyTooBig.message(), "String passed to QuoteBody is too big.");
    assert_eq!(HostError::ReportBodyTooBig.message(), "String passed to ReportBody is too big.");
    assert_eq!(HostError::UnexpectedEof.message(), "failed to fill whole buffer");
    assert_eq!(HostError::AS("down".to_string()).message(), "down");
}

#[test]
fn request_is_built_for_validation() {
    let req = AttestationService::build_req("abc", true);
    assert_eq!(req.jsonrpc, "2.0");
    assert_eq!(req.method, "validate");
    assert_eq!(req.params.quote, "abc");
    assert!(req.params.production);
    assert_eq!(req.id, 1);

    let service = AttestationService::new("http://localhost".to_string(), 3);
    assert_eq!(service.url(), "http://localhost");
    assert_eq!(service.retries(), 3);
    let (req, exchange) = service.get_report("q", false);
    assert_eq!(req, AttestationService::build_req("q", false));
    assert_eq!(exchange.retries_left, 3);
    assert!(exchange.failed.is_none());
}

#[test]
fn first_answer_ends_the_exchange() {
    let start = Exchange { retries_left: 2, failed: None };
    match AttestationService::send_req(start, Ok(response(1))) {
        Progress::Done(Ok(r)) => assert_eq!(r, response(1)),
        other => panic!("unexpected {:?}", other),
    }
}

#[test]
fn failed_first_attempt_without_retries_ends_the_exchange() {
    let start = Exchange { retries_left: 0, failed: None };
    match AttestationService::send_req(start, Err(HostError::AS("a".to_string()))) {
        Progress::Done(Err(e)) => assert_eq!(e, HostError::AS("a".to_string())),
        other => panic!("unexpected {:?}", other),
    }
}

#[test]
fn retries_end_with_the_last_error() {
    let start = Exchange { retries_left: 2, failed: None };
    let next = match AttestationService::send_req(start, Err(HostError::AS("a".to_string()))) {
        Progress::Again(e) => e,
        other => panic!("unexpected {:?}", other),
    };
    assert_eq!(next.retries_left, 2);
    let next = match AttestationService::send_req(next, Err(HostError::AS("b".to_string()))) {
        Progress::Again(e) => e,
        other => panic!("unexpected {:?}", other),
    };
    assert_eq!(next.retries_left, 1);
    assert_eq!(next.failed, Some(HostError::AS("b".to_string())));
    match AttestationService::send_req(next, Ok(response(5))) {
        Progress::Done(Err(e)) => assert_eq!(e, HostError::AS("b".to_string())),
        other => panic!("unexpected {:?}", other),
    }
}

#[test]
fn validation_flag_and_acceptance() {
    assert!(parse_validate(Some("True")));
    assert!(!parse_validate(Some("true")));
    assert!(!parse_validate(Some("")));
    assert!(!parse_validate(None));
    assert!(is_report(true, false));
    assert!(!is_report(true, true));
    assert!(!is_report(false, false));
}
