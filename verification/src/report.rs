//! The report that the attestation service signs, as the enclave keeps it.

use crate::decode::{
    base64_decode, base64_decoded, json_field, json_field_of, JsonField, JsonFieldView,
};
use vstd::prelude::*;
use vstd::utf8::encode_utf8;

verus! {

/// The version of the attestation interface that is accepted.
pub const SUPPORTED_VERSION: u64 = 3;

/// What can go wrong with a response of the attestation service.
#[derive(Clone, Debug, PartialEq, Eq)]
pub enum ReportError {
    /// The response has no `X-IASReport-Signature` header.
    MissingSignature,
    /// The response has no `X-IASReport-Signing-Certificate` header.
    MissingCertificate,
    /// A header or the quote body is not Base64.
    Base64,
    /// A `%` in the certificate is not followed by two hexadecimal digits.
    BadEscape,
    /// The certificate has no text between a second and a third `-----`.
    BadCertificate,
    /// The report is not JSON.
    Json,
    /// The report has no version that is a number.
    InvalidVersion,
    /// The report has another version than the supported one.
    UnsupportedVersion,
    /// The report has no quote status that is a string.
    MissingQuoteStatus,
    /// The quote status is neither `OK` nor `GROUP_OUT_OF_DATE`.
    InvalidQuoteStatus(String),
    /// The report has no quote body that is a string.
    InvalidQuoteBody,
}

/// A quote status that is accepted.
#[derive(Clone, Copy, Debug, PartialEq, Eq, Structural)]
pub enum QuoteStatus {
    /// The platform is up to date.
    Good,
    /// Accepted, though the platform should be updated.
    GroupOutOfDate,
}

/// Value of a hexadecimal digit, upper or lower case.
pub open spec fn hex_value(b: u8) -> Option<u8> {
    if 0x30 <= b <= 0x39 {
        Some((b - 0x30) as u8)
    } else if 0x61 <= b <= 0x66 {
        Some((b - 0x61 + 10) as u8)
    } else if 0x41 <= b <= 0x46 {
        Some((b - 0x41 + 10) as u8)
    } else {
        None
    }
}

/// The byte that the two bytes after a `%` stand for: two hexadecimal
/// digits, or a plus sign and one digit.
pub open spec fn escape_value(high: u8, low: u8) -> Option<u8> {
    match (hex_value(high), hex_value(low)) {
        (Some(h), Some(l)) => Some((16 * h + l) as u8),
        (None, Some(l)) => if high == 0x2b {
            Some(l)
        } else {
            None
        },
        _ => None,
    }
}

/// The character with the given code, as UTF-8.
pub open spec fn utf8_of(code: u8) -> Seq<u8> {
    if code < 0x80 {
        seq![code]
    } else {
        seq![(0xc0 + code / 64) as u8, (0x80 + code % 64) as u8]
    }
}

/// The text from `i` on with every `%xx` replaced by the character it stands
/// for; `None` where a `%` is not followed by two digits.
pub open spec fn unescaped(s: Seq<u8>, i: int) -> Option<Seq<u8>>
    decreases s.len() - i,
{
    if i < 0 || i >= s.len() {
        Some(Seq::empty())
    } else if s[i] != 0x25 {
        match unescaped(s, i + 1) {
            Some(rest) => Some(seq![s[i]] + rest),
            None => None,
        }
    } else if i + 2 < s.len() {
        match (escape_value(s[i + 1], s[i + 2]), unescaped(s, i + 3)) {
            (Some(code), Some(rest)) => Some(utf8_of(code) + rest),
            _ => None,
        }
    } else {
        None
    }
}

/// Whether the escaped line feed `%0A` stands at `i`.
pub open spec fn line_feed_at(s: Seq<u8>, i: int) -> bool {
    0 <= i && i + 3 <= s.len() && s[i] == 0x25 && s[i + 1] == 0x30 && s[i + 2] == 0x41
}

/// The text from `i` on without any `%0A`.
pub open spec fn without_line_feeds(s: Seq<u8>, i: int) -> Seq<u8>
    decreases s.len() - i,
{
    if i < 0 || i >= s.len() {
        Seq::empty()
    } else if line_feed_at(s, i) {
        without_line_feeds(s, i + 3)
    } else {
        seq![s[i]] + without_line_feeds(s, i + 1)
    }
}

/// Whether five hyphens stand at `i`.
pub open spec fn rule_at(s: Seq<u8>, i: int) -> bool {
    0 <= i && i + 5 <= s.len() && s[i] == 0x2d && s[i + 1] == 0x2d && s[i + 2] == 0x2d && s[i + 3]
        == 0x2d && s[i + 4] == 0x2d
}

/// Index of the first `-----` at or after `i`; the length where there is none.
pub open spec fn next_rule(s: Seq<u8>, i: int) -> int
    decreases s.len() - i,
{
    if i < 0 || i + 5 > s.len() {
        s.len() as int
    } else if rule_at(s, i) {
        i
    } else {
        next_rule(s, i + 1)
    }
}

/// The text between the second `-----` and the third, or the end where
/// there is no third; `None` where there is no second.
pub open spec fn pem_body(s: Seq<u8>) -> Option<Seq<u8>> {
    let first = next_rule(s, 0);
    if first >= s.len() {
        None
    } else {
        let second = next_rule(s, first + 5);
        if second >= s.len() {
            None
        } else {
            Some(s.subrange(second + 5, next_rule(s, second + 5)))
        }
    }
}

/// The certificate that a percent-encoded PEM text holds.
pub open spec fn percent_decoded(orig: Seq<u8>) -> Result<Seq<u8>, ReportError> {
    match unescaped(orig, 0) {
        None => Err(ReportError::BadEscape),
        Some(text) => match pem_body(text) {
            None => Err(ReportError::BadCertificate),
            Some(body) => match base64_decoded(body) {
                None => Err(ReportError::Base64),
                Some(cert) => Ok(cert),
            },
        },
    }
}

/// What a response holds: its body as the report, the signature header
/// decoded from Base64, and the certificate header, freed of escaped line
/// feeds, decoded as a percent-encoded PEM text. The signature is looked at
/// before the certificate.
pub open spec fn response_read(
    body: Seq<u8>,
    signature: Option<&str>,
    certificate: Option<&str>,
) -> Result<AttestedReportView, ReportError> {
    match signature {
        None => Err(ReportError::MissingSignature),
        Some(sig) => match base64_decoded(encode_utf8(sig@)) {
            None => Err(ReportError::Base64),
            Some(report_sig) => match certificate {
                None => Err(ReportError::MissingCertificate),
                Some(cert) => match percent_decoded(without_line_feeds(encode_utf8(cert@), 0)) {
                    Err(e) => Err(e),
                    Ok(report_cert) => Ok(
                        AttestedReportView { report: body, report_sig, report_cert },
                    ),
                },
            },
        },
    }
}

/// The quote body that a member of a report stands for: the member has to
/// be a string, which is decoded from Base64. `None` stands for a report
/// that is not JSON.
pub open spec fn quote_body_of(member: Option<JsonFieldView>) -> Result<Seq<u8>, ReportError> {
    match member {
        None => Err(ReportError::Json),
        Some(JsonFieldView::Text(text)) => match base64_decoded(encode_utf8(text)) {
            Some(body) => Ok(body),
            None => Err(ReportError::Base64),
        },
        Some(_) => Err(ReportError::InvalidQuoteBody),
    }
}

/// Where the next `-----` is, within the text.
pub proof fn lemma_next_rule(s: Seq<u8>, i: int)
    requires
        0 <= i <= s.len(),
    ensures
        i <= next_rule(s, i) <= s.len(),
        next_rule(s, i) < s.len() ==> rule_at(s, next_rule(s, i)),
    decreases s.len() - i,
{
    if i + 5 <= s.len() && !rule_at(s, i) {
        lemma_next_rule(s, i + 1);
    }
}

fn hex_digit(b: u8) -> (value: Option<u8>)
    ensures
        value == hex_value(b),
        value matches Some(v) ==> v < 16,
{
    if 0x30 <= b && b <= 0x39 {
        Some(b - 0x30)
    } else if 0x61 <= b && b <= 0x66 {
        Some(b - 0x61 + 10)
    } else if 0x41 <= b && b <= 0x46 {
        Some(b - 0x41 + 10)
    } else {
        None
    }
}

fn escape(high: u8, low: u8) -> (value: Option<u8>)
    ensures
        value == escape_value(high, low),
{
    match (hex_digit(high), hex_digit(low)) {
        (Some(h), Some(l)) => Some(16 * h + l),
        (None, Some(l)) => if high == 0x2b {
            Some(l)
        } else {
            None
        },
        _ => None,
    }
}

/// Replaces every `%xx` by the character it stands for.
pub fn unescape(text: &[u8]) -> (out: Option<Vec<u8>>)
    ensures
        match out {
            Some(bytes) => unescaped(text@, 0) == Some(bytes@),
            None => unescaped(text@, 0) is None,
        },
{
    let n = text.len();
    let mut out: Vec<u8> = Vec::new();
    let mut i: usize = 0;
    while i < n
        invariant
            0 <= i <= n == text@.len(),
            unescaped(text@, 0) == match unescaped(text@, i as int) {
                Some(rest) => Some(out@ + rest),
                None => None,
            },
        decreases n - i,
    {
        let ghost so_far = out@;
        if text[i] != 0x25 {
            out.push(text[i]);
            proof {
                if let Some(rest) = unescaped(text@, i + 1) {
                    assert(so_far + (seq![text@[i as int]] + rest) =~= out@ + rest);
                }
            }
            i += 1;
        } else if n - i > 2 {
            match escape(text[i + 1], text[i + 2]) {
                Some(code) => {
                    if code < 0x80 {
                        out.push(code);
                    } else {
                        out.push(0xc0 + code / 64);
                        out.push(0x80 + code % 64);
                    }
                    proof {
                        if let Some(rest) = unescaped(text@, i + 3) {
                            assert(so_far + (utf8_of(code) + rest) =~= out@ + rest);
                        }
                    }
                    i += 3;
                },
                None => {
                    return None;
                },
            }
        } else {
            return None;
        }
    }
    assert(out@ + Seq::<u8>::empty() =~= out@);
    Some(out)
}

/// Takes every `%0A` out of a text.
pub fn strip_line_feeds(text: &[u8]) -> (out: Vec<u8>)
    ensures
        out@ == without_line_feeds(text@, 0),
{
    let n = text.len();
    let mut out: Vec<u8> = Vec::new();
    let mut i: usize = 0;
    while i < n
        invariant
            0 <= i <= n == text@.len(),
            without_line_feeds(text@, 0) == out@ + without_line_feeds(text@, i as int),
        decreases n - i,
    {
        let ghost so_far = out@;
        if n - i >= 3 && text[i] == 0x25 && text[i + 1] == 0x30 && text[i + 2] == 0x41 {
            i += 3;
        } else {
            out.push(text[i]);
            assert(so_far + (seq![text@[i as int]] + without_line_feeds(text@, i + 1)) =~= out@
                + without_line_feeds(text@, i + 1));
            i += 1;
        }
    }
    assert(out@ + Seq::<u8>::empty() =~= out@);
    out
}

/// Index of the first `-----` at or after `from`; the length where there is
/// none.
pub fn find_rule(text: &[u8], from: usize) -> (at: usize)
    ensures
        at == next_rule(text@, from as int),
        at <= text@.len(),
        from <= text@.len() ==> from <= at,
{
    let n = text.len();
    if from > n {
        return n;
    }
    let mut i: usize = from;
    while n - i >= 5 && !(text[i] == 0x2d && text[i + 1] == 0x2d && text[i + 2] == 0x2d && text[i
        + 3] == 0x2d && text[i + 4] == 0x2d)
        invariant
            from <= i <= n == text@.len(),
            next_rule(text@, from as int) == next_rule(text@, i as int),
        decreases n - i,
    {
        i += 1;
    }
    if n - i >= 5 {
        assert(rule_at(text@, i as int));
        i
    } else {
        n
    }
}

/// Decodes the certificate of a percent-encoded PEM text: the Base64 text
/// between its second and its third `-----`.
pub fn percent_decode(orig: &[u8]) -> (cert: Result<Vec<u8>, ReportError>)
    ensures
        match cert {
            Ok(bytes) => percent_decoded(orig@) == Ok::<Seq<u8>, ReportError>(bytes@),
            Err(e) => percent_decoded(orig@) == Err::<Seq<u8>, ReportError>(e),
        },
{
    let text = match unescape(orig) {
        Some(text) => text,
        None => { return Err(ReportError::BadEscape); },
    };
    let n = text.len();
    let first = find_rule(text.as_slice(), 0);
    if first >= n {
        return Err(ReportError::BadCertificate);
    }
    proof {
        lemma_next_rule(text@, 0);
    }
    let second = find_rule(text.as_slice(), first + 5);
    if second >= n {
        return Err(ReportError::BadCertificate);
    }
    proof {
        lemma_next_rule(text@, first + 5);
    }
    let third = find_rule(text.as_slice(), second + 5);
    let body = vstd::slice::slice_subrange(text.as_slice(), second + 5, third);
    match base64_decode(body) {
        Ok(cert) => Ok(cert),
        Err(_) => Err(ReportError::Base64),
    }
}

/// What checking the version of a report gives: only the supported version
/// passes.
pub open spec fn version_checked(version: JsonFieldView) -> Result<(), ReportError> {
    match version {
        JsonFieldView::Unsigned(v) => if v == SUPPORTED_VERSION {
            Ok(())
        } else {
            Err(ReportError::UnsupportedVersion)
        },
        _ => Err(ReportError::InvalidVersion),
    }
}

/// Whether a text is the quote status `OK`.
pub open spec fn is_status_ok(text: Seq<char>) -> bool {
    text == "OK"@
}

/// Whether a text is the quote status `GROUP_OUT_OF_DATE`.
pub open spec fn is_status_out_of_date(text: Seq<char>) -> bool {
    text == "GROUP_OUT_OF_DATE"@
}

/// A response of the attestation service.
#[derive(Debug)]
pub struct AttestedReport {
    /// The report as the service sent it.
    report: Vec<u8>,
    /// The signature over the report.
    report_sig: Vec<u8>,
    /// The certificate of the key that signed.
    report_cert: Vec<u8>,
}

/// The three parts of an attested report.
pub struct AttestedReportView {
    pub report: Seq<u8>,
    pub report_sig: Seq<u8>,
    pub report_cert: Seq<u8>,
}

impl View for AttestedReport {
    type V = AttestedReportView;

    closed spec fn view(&self) -> AttestedReportView {
        AttestedReportView {
            report: self.report@,
            report_sig: self.report_sig@,
            report_cert: self.report_cert@,
        }
    }
}

impl Clone for AttestedReport {
    fn clone(&self) -> (copy: Self)
        ensures
            copy@ == self@,
    {
        let report = self.report.clone();
        let report_sig = self.report_sig.clone();
        let report_cert = self.report_cert.clone();
        assert(report@ =~= self.report@);
        assert(report_sig@ =~= self.report_sig@);
        assert(report_cert@ =~= self.report_cert@);
        AttestedReport { report, report_sig, report_cert }
    }
}

impl AttestedReport {
    /// A report from its three parts, each already decoded.
    pub fn new(report: Vec<u8>, report_sig: Vec<u8>, report_cert: Vec<u8>) -> (attested: Self)
        ensures
            attested@ == (AttestedReportView {
                report: report@,
                report_sig: report_sig@,
                report_cert: report_cert@,
            }),
    {
        AttestedReport { report, report_sig, report_cert }
    }

    /// A report from the body of a response and its two headers, as they were
    /// sent: the signature in Base64, the certificate as percent-encoded PEM.
    pub fn from_response(body: Vec<u8>, signature: Option<&str>, certificate: Option<&str>) -> (out:
        Result<Self, ReportError>)
        ensures
            match out {
                Ok(attested) => response_read(body@, signature, certificate) == Ok::<
                    AttestedReportView,
                    ReportError,
                >(attested@),
                Err(e) => response_read(body@, signature, certificate) == Err::<
                    AttestedReportView,
                    ReportError,
                >(e),
            },
    {
        let sig = match signature {
            Some(sig) => sig,
            None => { return Err(ReportError::MissingSignature); },
        };
        let report_sig = match base64_decode(sig.as_bytes()) {
            Ok(bytes) => bytes,
            Err(_) => { return Err(ReportError::Base64); },
        };
        let cert = match certificate {
            Some(cert) => cert,
            None => { return Err(ReportError::MissingCertificate); },
        };
        let stripped = strip_line_feeds(cert.as_bytes());
        let report_cert = match percent_decode(stripped.as_slice()) {
            Ok(bytes) => bytes,
            Err(e) => { return Err(e); },
        };
        Ok(AttestedReport { report: body, report_sig, report_cert })
    }

    /// Checks that the version of a report is the supported one.
    pub fn verify_version(version: &JsonField) -> (out: Result<(), ReportError>)
        ensures
            out == version_checked(version@),
    {
        match version {
            JsonField::Unsigned(v) => if *v == SUPPORTED_VERSION {
                Ok(())
            } else {
                Err(ReportError::UnsupportedVersion)
            },
            _ => Err(ReportError::InvalidVersion),
        }
    }

    /// Checks the quote status of a report: `OK` and `GROUP_OUT_OF_DATE`
    /// pass, any other text is handed back in the error.
    pub fn verify_quote_status(status: &JsonField) -> (out: Result<QuoteStatus, ReportError>)
        ensures
            match out {
                Ok(QuoteStatus::Good) => status@ matches JsonFieldView::Text(text) && is_status_ok(
                    text,
                ),
                Ok(QuoteStatus::GroupOutOfDate) => status@ matches JsonFieldView::Text(text)
                    && is_status_out_of_date(text),
                Err(ReportError::InvalidQuoteStatus(found)) => status@ matches JsonFieldView::Text(
                    text,
                ) && !is_status_ok(text) && !is_status_out_of_date(text) && found@ == text,
                Err(ReportError::MissingQuoteStatus) => !(status@ is Text),
                Err(_) => false,
            },
    {
        match status {
            JsonField::Text(text) => {
                proof {
                    reveal_strlit("OK");
                    reveal_strlit("GROUP_OUT_OF_DATE");
                }
                if *text == "OK".to_owned() {
                    Ok(QuoteStatus::Good)
                } else if *text == "GROUP_OUT_OF_DATE".to_owned() {
                    Ok(QuoteStatus::GroupOutOfDate)
                } else {
                    Err(ReportError::InvalidQuoteStatus(text.clone()))
                }
            },
            _ => Err(ReportError::MissingQuoteStatus),
        }
    }

    /// Checks the version and the quote status that the report, a JSON
    /// document, holds. This is what remains to be checked of a report whose
    /// certificate and signature were found good.
    pub fn verify_report_fields(&self) -> (out: Result<QuoteStatus, ReportError>)
        ensures
            match out {
                Ok(status) => {
                    &&& json_field_of(self@.report, "version"@) matches Some(version)
                    &&& version_checked(version) is Ok
                    &&& json_field_of(self@.report, "isvEnclaveQuoteStatus"@) matches Some(
                        JsonFieldView::Text(text),
                    )
                    &&& match status {
                        QuoteStatus::Good => is_status_ok(text),
                        QuoteStatus::GroupOutOfDate => is_status_out_of_date(text),
                    }
                },
                Err(ReportError::Json) => json_field_of(self@.report, "version"@) is None
                    || json_field_of(self@.report, "isvEnclaveQuoteStatus"@) is None,
                Err(ReportError::InvalidVersion) => json_field_of(self@.report, "version"@)
                    matches Some(version) && !(version is Unsigned),
                Err(ReportError::UnsupportedVersion) => json_field_of(self@.report, "version"@)
                    matches Some(JsonFieldView::Unsigned(v)) && v != SUPPORTED_VERSION,
                Err(ReportError::MissingQuoteStatus) => {
                    &&& json_field_of(self@.report, "version"@) matches Some(version)
                    &&& version_checked(version) is Ok
                    &&& json_field_of(self@.report, "isvEnclaveQuoteStatus"@) matches Some(status)
                    &&& !(status is Text)
                },
                Err(ReportError::InvalidQuoteStatus(found)) => {
                    &&& json_field_of(self@.report, "version"@) matches Some(version)
                    &&& version_checked(version) is Ok
                    &&& json_field_of(self@.report, "isvEnclaveQuoteStatus"@) matches Some(
                        JsonFieldView::Text(text),
                    )
                    &&& !is_status_ok(text)
                    &&& !is_status_out_of_date(text)
                    &&& found@ == text
                },
                Err(_) => false,
            },
    {
        let version = match json_field(self.report.as_slice(), "version") {
            Ok(field) => field,
            Err(_) => { return Err(ReportError::Json); },
        };
        match Self::verify_version(&version) {
            Ok(()) => {},
            Err(e) => { return Err(e); },
        }
        let status = match json_field(self.report.as_slice(), "isvEnclaveQuoteStatus") {
            Ok(field) => field,
            Err(_) => { return Err(ReportError::Json); },
        };
        proof {
            reveal_strlit("OK");
            reveal_strlit("GROUP_OUT_OF_DATE");
        }
        Self::verify_quote_status(&status)
    }

    /// The quote body that the report holds, decoded from Base64.
    pub fn get_quote_body(&self) -> (out: Result<Vec<u8>, ReportError>)
        ensures
            match out {
                Ok(body) => quote_body_of(json_field_of(self@.report, "isvEnclaveQuoteBody"@))
                    == Ok::<Seq<u8>, ReportError>(body@),
                Err(e) => quote_body_of(json_field_of(self@.report, "isvEnclaveQuoteBody"@))
                    == Err::<Seq<u8>, ReportError>(e),
            },
    {
        let field = match json_field(self.report.as_slice(), "isvEnclaveQuoteBody") {
            Ok(field) => field,
            Err(_) => { return Err(ReportError::Json); },
        };
        match field {
            JsonField::Text(text) => {
                let encoded = text.as_str();
                match base64_decode(encoded.as_bytes()) {
                    Ok(body) => Ok(body),
                    Err(_) => Err(ReportError::Base64),
                }
            },
            _ => Err(ReportError::InvalidQuoteBody),
        }
    }

    pub fn report(&self) -> (bytes: &[u8])
        ensures
            bytes@ == self@.report,
    {
        self.report.as_slice()
    }

    pub fn report_sig(&self) -> (bytes: &[u8])
        ensures
            bytes@ == self@.report_sig,
    {
        self.report_sig.as_slice()
    }

    pub fn report_cert(&self) -> (bytes: &[u8])
        ensures
            bytes@ == self@.report_cert,
    {
        self.report_cert.as_slice()
    }
}

} // verus!
