//! Requests to the attestation service and what it answers.

use crate::error::HostError;
use vstd::prelude::*;

verus! {

/// Attestation verification report.
#[derive(Clone, Debug, PartialEq, Eq)]
pub struct AVReport {
    pub id: String,
    pub timestamp: String,
    pub version: usize,
    pub isv_enclave_quote_status: String,
    pub isv_enclave_quote_body: String,
    pub revocation_reason: Option<String>,
    pub pse_manifest_status: Option<String>,
    pub pse_manifest_hash: Option<String>,
    pub platform_info_blob: Option<String>,
    pub nonce: Option<String>,
    pub epid_pseudonym: Option<String>,
}

impl Default for AVReport {
    fn default() -> (report: Self)
        ensures
            report.id@.len() == 0,
            report.timestamp@.len() == 0,
            report.version == 0,
            report.isv_enclave_quote_status@.len() == 0,
            report.isv_enclave_quote_body@.len() == 0,
            report.revocation_reason is None,
            report.pse_manifest_status is None,
            report.pse_manifest_hash is None,
            report.platform_info_blob is None,
            report.nonce is None,
            report.epid_pseudonym is None,
    {
        AVReport {
            id: String::new(),
            timestamp: String::new(),
            version: 0,
            isv_enclave_quote_status: String::new(),
            isv_enclave_quote_body: String::new(),
            revocation_reason: None,
            pse_manifest_status: None,
            pse_manifest_hash: None,
            platform_info_blob: None,
            nonce: None,
            epid_pseudonym: None,
        }
    }
}

/// What the service answers to a request: a validated report.
#[derive(Clone, Debug, PartialEq, Eq)]
pub struct ASResponse {
    pub id: i64,
    pub jsonrpc: String,
    pub result: ASResult,
}

/// The result inside an answer of the service.
#[derive(Clone, Debug, PartialEq, Eq)]
pub struct ASResult {
    pub ca: String,
    pub cert: String,
    pub report: AVReport,
    pub report_str: String,
    pub sig: String,
    pub validate: bool,
}

/// Parameters of a request.
#[derive(Clone, Debug, PartialEq, Eq)]
pub struct Params {
    pub quote: String,
    pub production: bool,
}

/// A request that hands a quote to the service.
#[derive(Clone, Debug, PartialEq, Eq)]
pub struct QuoteRequest {
    pub jsonrpc: String,
    pub method: String,
    pub params: Params,
    pub id: i32,
}

/// Whether the service marked a result as valid: only the text `True` does.
pub fn parse_validate(field: Option<&str>) -> (valid: bool)
    ensures
        valid == (field matches Some(text) && text@ == "True"@),
{
    match field {
        Some(text) => text.to_owned() == "True".to_owned(),
        None => false,
    }
}

/// Whether an answer is taken as a report: the transfer succeeded and the
/// answer holds no error object.
pub fn is_report(status_is_success: bool, error_is_object: bool) -> (accepted: bool)
    ensures
        accepted == (status_is_success && !error_is_object),
{
    status_is_success && !error_is_object
}

/// An exchange with the service that is under way: how often the request may
/// still be sent, and the error of the last attempt that failed.
#[derive(Debug)]
pub struct Exchange {
    pub retries_left: u32,
    pub failed: Option<HostError>,
}

/// What to do after an attempt.
#[derive(Debug)]
pub enum Progress {
    /// Send the request once more and come back with what happened.
    Again(Exchange),
    /// The exchange is over.
    Done(Result<ASResponse, HostError>),
}

/// The attestation service: where it is and how often a request that failed
/// is sent again.
#[derive(Clone, Debug)]
pub struct AttestationService {
    url: String,
    retries: u32,
}

impl AttestationService {
    pub fn new(url: String, retries: u32) -> (service: Self)
        ensures
            service.url_spec() == url,
            service.retries_spec() == retries,
    {
        AttestationService { url, retries }
    }

    pub closed spec fn url_spec(&self) -> String {
        self.url
    }

    pub closed spec fn retries_spec(&self) -> u32 {
        self.retries
    }

    pub fn url(&self) -> (url: &String)
        ensures
            *url == self.url_spec(),
    {
        &self.url
    }

    pub fn retries(&self) -> (retries: u32)
        ensures
            retries == self.retries_spec(),
    {
        self.retries
    }

    /// Starts an exchange: the request to send, and the state to come back
    /// with once it was sent.
    pub fn get_report(&self, quote: &str, is_prod: bool) -> (start: (QuoteRequest, Exchange))
        ensures
            start.0.jsonrpc@ == "2.0"@,
            start.0.method@ == "validate"@,
            start.0.params.quote@ == quote@,
            start.0.params.production == is_prod,
            start.0.id == 1,
            start.1.retries_left == self.retries_spec(),
            start.1.failed is None,
    {
        (Self::build_req(quote, is_prod), Exchange { retries_left: self.retries, failed: None })
    }

    /// The request that hands `quote` to the service.
    pub fn build_req(quote: &str, is_prod: bool) -> (req: QuoteRequest)
        ensures
            req.jsonrpc@ == "2.0"@,
            req.method@ == "validate"@,
            req.params.quote@ == quote@,
            req.params.production == is_prod,
            req.id == 1,
    {
        QuoteRequest {
            jsonrpc: "2.0".to_owned(),
            method: "validate".to_owned(),
            params: Params { quote: quote.to_owned(), production: is_prod },
            id: 1,
        }
    }

    /// What follows an attempt. An answer to the first attempt ends the
    /// exchange. After a first attempt that failed, the request is sent
    /// `retries` more times whatever comes back, and the exchange ends with the
    /// error of the last attempt that failed.
    pub fn send_req(exchange: Exchange, outcome: Result<ASResponse, HostError>) -> (next: Progress)
        ensures
            next == after_attempt(exchange, outcome),
    {
        let Exchange { retries_left, failed } = exchange;
        match failed {
            None => match outcome {
                Ok(response) => Progress::Done(Ok(response)),
                Err(error) => {
                    if retries_left == 0 {
                        Progress::Done(Err(error))
                    } else {
                        Progress::Again(Exchange { retries_left, failed: Some(error) })
                    }
                },
            },
            Some(earlier) => {
                let error = match outcome {
                    Ok(_) => earlier,
                    Err(error) => error,
                };
                if retries_left <= 1 {
                    Progress::Done(Err(error))
                } else {
                    Progress::Again(
                        Exchange { retries_left: retries_left - 1, failed: Some(error) },
                    )
                }
            },
        }
    }
}

/// What follows an attempt of an exchange, given what the attempt brought.
pub open spec fn after_attempt(
    exchange: Exchange,
    outcome: Result<ASResponse, HostError>,
) -> Progress {
    match exchange.failed {
        None => match outcome {
            Ok(response) => Progress::Done(Ok(response)),
            Err(error) => if exchange.retries_left == 0 {
                Progress::Done(Err(error))
            } else {
                Progress::Again(
                    Exchange { retries_left: exchange.retries_left, failed: Some(error) },
                )
            },
        },
        Some(earlier) => {
            let error = match outcome {
                Ok(_) => earlier,
                Err(error) => error,
            };
            if exchange.retries_left <= 1 {
                Progress::Done(Err(error))
            } else {
                Progress::Again(
                    Exchange {
                        retries_left: (exchange.retries_left - 1) as u32,
                        failed: Some(error),
                    },
                )
            }
        },
    }
}

} // verus!
