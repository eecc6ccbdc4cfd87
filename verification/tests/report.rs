use anonify::decode::JsonField;
use anonify::report::{
    find_rule, percent_decode, strip_line_feeds, unescape, AttestedReport, QuoteStatus,
    ReportError,
};

#[test]
fn unescape_replaces_escapes() {
    assert_eq!(unescape(b"a%20b%41"), Some(b"a bA".to_vec()));
    assert_eq!(unescape(b"%2d%2D"), Some(b"--".to_vec()));
    assert_eq!(unescape(b"%+a"), Some(vec![10u8]));
    assert_eq!(unescape(b"%e9"), Some(vec![0xc3, 0xa9]));
    assert_eq!(unescape(b""), Some(Vec::new()));
    assert_eq!(unescape(b"%4"), None);
    assert_eq!(unescape(b"abc%"), None);
    assert_eq!(unescape(b"%zz"), None);
    assert_eq!(unescape(b"%%41"), None);
}

#[test]
fn line_feeds_are_taken_out() {
    assert_eq!(strip_line_feeds(b"ab%0Acd%0A"), b"abcd".to_vec());
    assert_eq!(strip_line_feeds(b"%0a%0"), b"%0a%0".to_vec());
    assert_eq!(strip_line_feeds(b"%%0A0A"), b"%0A".to_vec());
}

#[test]
fn rules_are_found() {
    assert_eq!(find_rule(b"ab-----cd", 0), 2);
    assert_eq!(find_rule(b"ab-----cd", 3), 9);
    assert_eq!(find_rule(b"----", 0), 4);
    assert_eq!(find_rule(b"-------", 1), 1);
    assert_eq!(find_rule(b"", 0), 0);
}

#[test]
fn certificate_is_decoded() {
    let pem = b"-----BEGIN%20CERTIFICATE-----aGVsbG8gd29ybGQ=-----END%20CERTIFICATE-----";
    assert_eq!(percent_decode(pem), Ok(b"hello world".to_vec()));
    let open = b"-----BEGIN CERTIFICATE-----aGk=";
    assert_eq!(percent_decode(open), Ok(b"hi".to_vec()));
}

#[test]
fn certificate_errors() {
    assert_eq!(percent_decode(b"-----BEGIN%2"), Err(ReportError::BadEscape));
    assert_eq!(percent_decode(b"no rules here"), Err(ReportError::BadCertificate));
    assert_eq!(percent_decode(b"-----only one"), Err(ReportError::BadCertificate));
    assert_eq!(percent_decode(b"-----A-----!!!-----"), Err(ReportError::Base64));
}

#[test]
fn report_from_response() {
    let cert = "-----BEGIN%20CERTIFICATE-----%0AaGVs%0AbG8=%0A-----END%20CERTIFICATE-----%0A";
    let report =
        AttestedReport::from_response(b"{}".to_vec(), Some("c2ln"), Some(cert)).unwrap();
    assert_eq!(report.report(), b"{}");
    assert_eq!(report.report_sig(), b"sig");
    assert_eq!(report.report_cert(), b"hello");
    let copy = report.clone();
    assert_eq!(copy.report_cert(), b"hello");
}

#[test]
fn report_from_response_errors() {
    let cert = "-----A-----aGk=-----";
    assert_eq!(
        AttestedReport::from_response(Vec::new(), None, Some(cert)).err(),
        Some(ReportError::MissingSignature)
    );
    assert_eq!(
        AttestedReport::from_response(Vec::new(), Some("%%"), Some(cert)).err(),
        Some(ReportError::Base64)
    );
    assert_eq!(
        AttestedReport::from_response(Vec::new(), Some("c2ln"), None).err(),
        Some(ReportError::MissingCertificate)
    );
    assert_eq!(
        AttestedReport::from_response(Vec::new(), Some("c2ln"), Some("%")).err(),
        Some(ReportError::BadEscape)
    );
    assert_eq!(
        AttestedReport::from_response(Vec::new(), Some("c2ln"), Some("abc")).err(),
        Some(ReportError::BadCertificate)
    );
}

#[test]
fn version_check() {
    assert_eq!(AttestedReport::verify_version(&JsonField::Unsigned(3)), Ok(()));
    assert_eq!(
        AttestedReport::verify_version(&JsonField::Unsigned(4)),
        Err(ReportError::UnsupportedVersion)
    );
    assert_eq!(
        AttestedReport::verify_version(&JsonField::Text("3".to_string())),
        Err(ReportError::InvalidVersion)
    );
    assert_eq!(
        AttestedReport::verify_version(&JsonField::Other),
        Err(ReportError::InvalidVersion)
    );
}

#[test]
fn quote_status_check() {
    assert_eq!(
        AttestedReport::verify_quote_status(&JsonField::Text("OK".to_string())),
        Ok(QuoteStatus::Good)
    );
    assert_eq!(
        AttestedReport::verify_quote_status(&JsonField::Text("GROUP_OUT_OF_DATE".to_string())),
        Ok(QuoteStatus::GroupOutOfDate)
    );
    assert_eq!(
        AttestedReport::verify_quote_status(&JsonField::Text("REVOKED".to_string())),
        Err(ReportError::InvalidQuoteStatus("REVOKED".to_string()))
    );
    assert_eq!(
        AttestedReport::verify_quote_status(&JsonField::Unsigned(1)),
        Err(ReportError::MissingQuoteStatus)
    );
    assert_eq!(
        AttestedReport::verify_quote_status(&JsonField::Other),
        Err(ReportError::MissingQuoteStatus)
    );
}

fn attested(report: &str) -> AttestedReport {
    AttestedReport::new(report.as_bytes().to_vec(), Vec::new(), Vec::new())
}

#[test]
fn report_fields_are_checked() {
    let good = r#"{"version":3,"isvEnclaveQuoteStatus":"OK","isvEnclaveQuoteBody":"AQID"}"#;
    assert_eq!(attested(good).verify_report_fields(), Ok(QuoteStatus::Good));
    let dated = r#"{"version":3,"isvEnclaveQuoteStatus":"GROUP_OUT_OF_DATE"}"#;
    assert_eq!(attested(dated).verify_report_fields(), Ok(QuoteStatus::GroupOutOfDate));
    let old = r#"{"version":2,"isvEnclaveQuoteStatus":"OK"}"#;
    assert_eq!(attested(old).verify_report_fields(), Err(ReportError::UnsupportedVersion));
    let negative = r#"{"version":-3,"isvEnclaveQuoteStatus":"OK"}"#;
    assert_eq!(attested(negative).verify_report_fields(), Err(ReportError::InvalidVersion));
    let unversioned = r#"{"isvEnclaveQuoteStatus":"OK"}"#;
    assert_eq!(attested(unversioned).verify_report_fields(), Err(ReportError::InvalidVersion));
    let revoked = r#"{"version":3,"isvEnclaveQuoteStatus":"KEY_REVOKED"}"#;
    assert_eq!(
        attested(revoked).verify_report_fields(),
        Err(ReportError::InvalidQuoteStatus("KEY_REVOKED".to_string()))
    );
    let silent = r#"{"version":3}"#;
    assert_eq!(attested(silent).verify_report_fields(), Err(ReportError::MissingQuoteStatus));
    assert_eq!(attested("{").verify_report_fields(), Err(ReportError::Json));
    assert_eq!(attested("[3]").verify_report_fields(), Err(ReportError::InvalidVersion));
}

#[test]
fn quote_body_is_decoded() {
    let good = r#"{"version":3,"isvEnclaveQuoteStatus":"OK","isvEnclaveQuoteBody":"AQID"}"#;
    assert_eq!(attested(good).get_quote_body(), Ok(vec![1u8, 2, 3]));
    assert_eq!(
        attested(r#"{"isvEnclaveQuoteBody":7}"#).get_quote_body(),
        Err(ReportError::InvalidQuoteBody)
    );
    assert_eq!(attested(r#"{}"#).get_quote_body(), Err(ReportError::InvalidQuoteBody));
    assert_eq!(
        attested(r#"{"isvEnclaveQuoteBody":"!"}"#).get_quote_body(),
        Err(ReportError::Base64)
    );
    assert_eq!(attested("not json").get_quote_body(), Err(ReportError::Json));
}
