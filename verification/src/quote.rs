//! The quote of an enclave as the attestation service sends it back: a quote
//! body of 48 bytes followed by a report body of 384 bytes.

use crate::error::HostError;
use vstd::prelude::*;
use vstd::slice::slice_subrange;

verus! {

broadcast use vstd::array::array_len_matches_n;

/// Number of bytes of a quote body.
pub const QUOTE_BODY_SIZE: usize = 48;

/// Number of bytes of a report body.
pub const REPORT_BODY_SIZE: usize = 384;

/// Number of bytes of a quote: the two bodies one after the other.
pub const QUOTE_SIZE: usize = 432;

/// Copies `N` bytes that start at `at`.
fn take<const N: usize>(bytes: &[u8], at: usize) -> (out: [u8; N])
    requires
        at + N <= bytes@.len(),
    ensures
        out@ == bytes@.subrange(at as int, at + N),
{
    let len = bytes.len();
    let mut out = [0u8;N];
    let mut i: usize = 0;
    while i < N
        invariant
            0 <= i <= N,
            at + N <= len == bytes@.len(),
            out@.len() == N,
            forall|j: int| 0 <= j < i ==> out@[j] == bytes@[at + j],
        decreases N - i,
    {
        out[i] = bytes[at + i];
        i += 1;
    }
    assert(out@ =~= bytes@.subrange(at as int, at + N));
    out
}

/// The first 48 bytes of a quote.
#[derive(Clone, Copy, Debug, PartialEq)]
pub struct QuoteBody {
    version: [u8; 2],
    sig_type: [u8; 2],
    gid: [u8; 4],
    isv_svn_qe: [u8; 2],
    isv_svn_pce: [u8; 2],
    reserved: [u8; 4],
    base_name: [u8; 32],
}

impl View for QuoteBody {
    type V = Seq<u8>;

    /// The bytes of the fields in the order in which they are sent.
    closed spec fn view(&self) -> Seq<u8> {
        self.version@ + self.sig_type@ + self.gid@ + self.isv_svn_qe@ + self.isv_svn_pce@
            + self.reserved@ + self.base_name@
    }
}

impl Default for QuoteBody {
    fn default() -> (body: Self)
        ensures
            body@ == Seq::new(QUOTE_BODY_SIZE as nat, |i: int| 0u8),
    {
        let body = QuoteBody {
            version: [0u8;2],
            sig_type: [0u8;2],
            gid: [0u8;4],
            isv_svn_qe: [0u8;2],
            isv_svn_pce: [0u8;2],
            reserved: [0u8;4],
            base_name: [0u8;32],
        };
        assert(body@ =~= Seq::new(QUOTE_BODY_SIZE as nat, |i: int| 0u8));
        body
    }
}

impl QuoteBody {
    /// Reads a quote body from exactly 48 bytes.
    pub fn read(reader: &[u8]) -> (body: Result<QuoteBody, HostError>)
        ensures
            match body {
                Ok(b) => reader@.len() == QUOTE_BODY_SIZE && b@ == reader@,
                Err(HostError::UnexpectedEof) => reader@.len() < QUOTE_BODY_SIZE,
                Err(HostError::QuoteBodyTooBig) => reader@.len() > QUOTE_BODY_SIZE,
                Err(_) => false,
            },
    {
        if reader.len() < 48 {
            return Err(HostError::UnexpectedEof);
        }
        let body = QuoteBody {
            version: take::<2>(reader, 0),
            sig_type: take::<2>(reader, 2),
            gid: take::<4>(reader, 4),
            isv_svn_qe: take::<2>(reader, 8),
            isv_svn_pce: take::<2>(reader, 10),
            reserved: take::<4>(reader, 12),
            base_name: take::<32>(reader, 16),
        };
        if reader.len() != 48 {
            return Err(HostError::QuoteBodyTooBig);
        }
        assert(body@ =~= reader@);
        Ok(body)
    }

    pub fn version(&self) -> (bytes: &[u8; 2])
        ensures
            bytes@ == self@.subrange(0, 2),
            self@.len() == QUOTE_BODY_SIZE,
    {
        assert(self.version@ =~= self@.subrange(0, 2));
        &self.version
    }

    pub fn sig_type(&self) -> (bytes: &[u8; 2])
        ensures
            bytes@ == self@.subrange(2, 4),
            self@.len() == QUOTE_BODY_SIZE,
    {
        assert(self.sig_type@ =~= self@.subrange(2, 4));
        &self.sig_type
    }

    pub fn gid(&self) -> (bytes: &[u8; 4])
        ensures
            bytes@ == self@.subrange(4, 8),
            self@.len() == QUOTE_BODY_SIZE,
    {
        assert(self.gid@ =~= self@.subrange(4, 8));
        &self.gid
    }

    pub fn isv_svn_qe(&self) -> (bytes: &[u8; 2])
        ensures
            bytes@ == self@.subrange(8, 10),
            self@.len() == QUOTE_BODY_SIZE,
    {
        assert(self.isv_svn_qe@ =~= self@.subrange(8, 10));
        &self.isv_svn_qe
    }

    pub fn isv_svn_pce(&self) -> (bytes: &[u8; 2])
        ensures
            bytes@ == self@.subrange(10, 12),
            self@.len() == QUOTE_BODY_SIZE,
    {
        assert(self.isv_svn_pce@ =~= self@.subrange(10, 12));
        &self.isv_svn_pce
    }

    pub fn base_name(&self) -> (bytes: &[u8; 32])
        ensures
            bytes@ == self@.subrange(16, 48),
            self@.len() == QUOTE_BODY_SIZE,
    {
        assert(self.base_name@ =~= self@.subrange(16, 48));
        &self.base_name
    }
}

/// The 384 bytes of a quote that follow the quote body.
#[derive(Clone, Copy, Debug)]
pub struct ReportBody {
    spu_svn: [u8; 16],
    misc_select: [u8; 4],
    reserved1: [u8; 28],
    attributes: [u8; 16],
    mr_enclave: [u8; 32],
    reserved2: [u8; 32],
    mr_signer: [u8; 32],
    reserved3: [u8; 96],
    isv_prod_id: [u8; 2],
    isv_svn: [u8; 2],
    reserved4: [u8; 60],
    report_data: [u8; 64],
}

impl View for ReportBody {
    type V = Seq<u8>;

    /// The bytes of the fields in the order in which they are sent.
    closed spec fn view(&self) -> Seq<u8> {
        self.spu_svn@ + self.misc_select@ + self.reserved1@ + self.attributes@ + self.mr_enclave@
            + self.reserved2@ + self.mr_signer@ + self.reserved3@ + self.isv_prod_id@
            + self.isv_svn@ + self.reserved4@ + self.report_data@
    }
}

impl Default for ReportBody {
    fn default() -> (body: Self)
        ensures
            body@ == Seq::new(REPORT_BODY_SIZE as nat, |i: int| 0u8),
    {
        let body = ReportBody {
            spu_svn: [0u8;16],
            misc_select: [0u8;4],
            reserved1: [0u8;28],
            attributes: [0u8;16],
            mr_enclave: [0u8;32],
            reserved2: [0u8;32],
            mr_signer: [0u8;32],
            reserved3: [0u8;96],
            isv_prod_id: [0u8;2],
            isv_svn: [0u8;2],
            reserved4: [0u8;60],
            report_data: [0u8;64],
        };
        assert(body@ =~= Seq::new(REPORT_BODY_SIZE as nat, |i: int| 0u8));
        body
    }
}

impl ReportBody {
    /// Reads a report body from exactly 384 bytes.
    pub fn read(reader: &[u8]) -> (body: Result<ReportBody, HostError>)
        ensures
            match body {
                Ok(b) => reader@.len() == REPORT_BODY_SIZE && b@ == reader@,
                Err(HostError::UnexpectedEof) => reader@.len() < REPORT_BODY_SIZE,
                Err(HostError::ReportBodyTooBig) => reader@.len() > REPORT_BODY_SIZE,
                Err(_) => false,
            },
    {
        if reader.len() < 384 {
            return Err(HostError::UnexpectedEof);
        }
        let body = ReportBody {
            spu_svn: take::<16>(reader, 0),
            misc_select: take::<4>(reader, 16),
            reserved1: take::<28>(reader, 20),
            attributes: take::<16>(reader, 48),
            mr_enclave: take::<32>(reader, 64),
            reserved2: take::<32>(reader, 96),
            mr_signer: take::<32>(reader, 128),
            reserved3: take::<96>(reader, 160),
            isv_prod_id: take::<2>(reader, 256),
            isv_svn: take::<2>(reader, 258),
            reserved4: take::<60>(reader, 260),
            report_data: take::<64>(reader, 320),
        };
        if reader.len() != 384 {
            return Err(HostError::ReportBodyTooBig);
        }
        assert(body@ =~= reader@);
        Ok(body)
    }

    pub fn mr_enclave(&self) -> (bytes: &[u8; 32])
        ensures
            bytes@ == self@.subrange(64, 96),
            self@.len() == REPORT_BODY_SIZE,
    {
        assert(self.mr_enclave@ =~= self@.subrange(64, 96));
        &self.mr_enclave
    }

    pub fn mr_signer(&self) -> (bytes: &[u8; 32])
        ensures
            bytes@ == self@.subrange(128, 160),
            self@.len() == REPORT_BODY_SIZE,
    {
        assert(self.mr_signer@ =~= self@.subrange(128, 160));
        &self.mr_signer
    }

    pub fn report_data(&self) -> (bytes: &[u8; 64])
        ensures
            bytes@ == self@.subrange(320, 384),
            self@.len() == REPORT_BODY_SIZE,
    {
        assert(self.report_data@ =~= self@.subrange(320, 384));
        &self.report_data
    }
}

/// A quote: its quote body and its report body.
#[derive(Clone, Copy, Debug)]
pub struct Quote {
    quote_body: QuoteBody,
    report_body: ReportBody,
}

impl View for Quote {
    type V = Seq<u8>;

    closed spec fn view(&self) -> Seq<u8> {
        self.quote_body@ + self.report_body@
    }
}

impl Quote {
    /// Reads a quote from the first 432 bytes of `from`; what follows them is
    /// not looked at.
    pub fn try_from(from: &[u8]) -> (quote: Result<Quote, HostError>)
        ensures
            match quote {
                Ok(q) => from@.len() >= QUOTE_SIZE && q@ == from@.subrange(0, QUOTE_SIZE as int),
                Err(HostError::UnexpectedEof) => from@.len() < QUOTE_SIZE,
                Err(_) => false,
            },
    {
        if from.len() < 432 {
            return Err(HostError::UnexpectedEof);
        }
        let quote_body = match QuoteBody::read(slice_subrange(from, 0, 48)) {
            Ok(body) => body,
            Err(e) => { return Err(e); },
        };
        let report_body = match ReportBody::read(slice_subrange(from, 48, 432)) {
            Ok(body) => body,
            Err(e) => { return Err(e); },
        };
        let quote = Quote { quote_body, report_body };
        assert(quote@ =~= from@.subrange(0, QUOTE_SIZE as int));
        Ok(quote)
    }

    pub fn quote_body(&self) -> (body: &QuoteBody)
        ensures
            body@ == self@.subrange(0, QUOTE_BODY_SIZE as int),
            self@.len() == QUOTE_SIZE,
    {
        assert(self.quote_body@ =~= self@.subrange(0, QUOTE_BODY_SIZE as int));
        &self.quote_body
    }

    pub fn report_body(&self) -> (body: &ReportBody)
        ensures
            body@ == self@.subrange(QUOTE_BODY_SIZE as int, QUOTE_SIZE as int),
            self@.len() == QUOTE_SIZE,
    {
        assert(self.report_body@ =~= self@.subrange(QUOTE_BODY_SIZE as int, QUOTE_SIZE as int));
        &self.report_body
    }
}

} // verus!
