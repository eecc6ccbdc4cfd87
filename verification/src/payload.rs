//! The unit of ordering: one payload of one sender.

use vstd::prelude::*;
use vstd::std_specs::cmp::PartialEqSpecImpl;

verus! {

/// Generation that marks a handshake. A handshake is admitted at any counter
/// value of its epoch.
pub const HANDSHAKE_GENERATION: u32 = u32::MAX;

/// Generation of a fresh message, admitted at any counter value of its epoch.
pub const FRESH_GENERATION: u32 = 0;

/// Mathematical value of a payload.
pub struct PayloadView {
    pub roster_idx: u32,
    pub epoch: u32,
    pub generation: u32,
    pub body: Seq<u8>,
}

impl PayloadView {
    /// The pair by which payloads of one sender are ordered.
    pub open spec fn key(self) -> (u32, u32) {
        (self.epoch, self.generation)
    }

    /// True for the handshake marker.
    pub open spec fn is_handshake(self) -> bool {
        self.generation == HANDSHAKE_GENERATION
    }
}

/// `b` comes directly after `a`: same sender, same epoch, generation one higher.
pub open spec fn follows(a: PayloadView, b: PayloadView) -> bool {
    &&& a.roster_idx == b.roster_idx
    &&& a.epoch == b.epoch
    &&& b.generation == a.generation + 1
}

/// Lexicographic `<=` on `(epoch, generation)` pairs.
pub open spec fn key_le(a: (u32, u32), b: (u32, u32)) -> bool {
    a.0 < b.0 || (a.0 == b.0 && a.1 <= b.1)
}

/// Lexicographic `<` on `(epoch, generation)` pairs.
pub open spec fn key_lt(a: (u32, u32), b: (u32, u32)) -> bool {
    a.0 < b.0 || (a.0 == b.0 && a.1 < b.1)
}

/// The values of a sequence of payloads, one for one.
pub open spec fn views(s: Seq<PayloadType>) -> Seq<PayloadView> {
    Seq::new(s.len(), |i: int| s[i]@)
}

/// One encrypted message or handshake of one sender. The body is opaque to
/// the ordering logic.
#[derive(Debug)]
pub struct PayloadType {
    roster_idx: u32,
    epoch: u32,
    generation: u32,
    body: Vec<u8>,
}

impl View for PayloadType {
    type V = PayloadView;

    closed spec fn view(&self) -> PayloadView {
        PayloadView {
            roster_idx: self.roster_idx,
            epoch: self.epoch,
            generation: self.generation,
            body: self.body@,
        }
    }
}

impl PayloadType {
    pub fn new(roster_idx: u32, epoch: u32, generation: u32, body: Vec<u8>) -> (p: Self)
        ensures
            p@ == (PayloadView { roster_idx, epoch, generation, body: body@ }),
    {
        PayloadType { roster_idx, epoch, generation, body }
    }

    pub fn roster_idx(&self) -> (r: u32)
        ensures
            r == self@.roster_idx,
    {
        self.roster_idx
    }

    pub fn epoch(&self) -> (e: u32)
        ensures
            e == self@.epoch,
    {
        self.epoch
    }

    pub fn generation(&self) -> (g: u32)
        ensures
            g == self@.generation,
    {
        self.generation
    }

    pub fn body(&self) -> (b: &Vec<u8>)
        ensures
            b@ == self@.body,
    {
        &self.body
    }

    /// Whether `other` comes directly after `self`.
    pub fn is_next(&self, other: &PayloadType) -> (b: bool)
        ensures
            b == follows(self@, other@),
    {
        self.roster_idx == other.roster_idx && self.epoch == other.epoch && self.generation
            < u32::MAX && other.generation == self.generation + 1
    }

    /// Whether `(epoch, generation)` of `self` is at or below `counter`.
    pub fn is_at_or_below(&self, counter: (u32, u32)) -> (b: bool)
        ensures
            b == key_le(self@.key(), counter),
    {
        self.epoch < counter.0 || (self.epoch == counter.0 && self.generation <= counter.1)
    }
}

impl Clone for PayloadType {
    fn clone(&self) -> (p: Self)
        ensures
            p@ == self@,
    {
        let body = self.body.clone();
        assert(body@ =~= self.body@);
        PayloadType {
            roster_idx: self.roster_idx,
            epoch: self.epoch,
            generation: self.generation,
            body,
        }
    }
}

impl PartialEq for PayloadType {
    fn eq(&self, other: &PayloadType) -> (r: bool) {
        let same_body = self.body == other.body;
        assert(same_body == (self.body@ =~= other.body@));
        self.roster_idx == other.roster_idx && self.epoch == other.epoch && self.generation
            == other.generation && same_body
    }
}

impl PartialEqSpecImpl for PayloadType {
    open spec fn obeys_eq_spec() -> bool {
        true
    }

    open spec fn eq_spec(&self, other: &PayloadType) -> bool {
        self@ == other@
    }
}

impl Eq for PayloadType {

}

} // verus!
