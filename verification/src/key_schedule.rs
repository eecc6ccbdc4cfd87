//! What the consumer of released payloads owes the key schedule.

use crate::payload::{PayloadType, PayloadView};
use vstd::prelude::*;

verus! {

/// One thing to do with a released payload.
#[derive(Clone, Copy, Debug, PartialEq, Eq, Structural)]
pub enum Action {
    /// Hand the handshake to the group key, which may move on to a new epoch.
    ProcessHandshake,
    /// Bring the receiving side of the sender's key chain up to the sender.
    SyncRatchet { roster_idx: u32 },
    /// Move the receiving side of the sender's key chain one step on.
    ReceiverRatchet { roster_idx: u32 },
    /// Decrypt the payload and apply it to the state.
    StateTransition,
}

/// What is owed for a payload, in this order.
pub open spec fn owed(p: PayloadView) -> Seq<Action> {
    if p.is_handshake() {
        seq![Action::ProcessHandshake]
    } else {
        seq![
            Action::SyncRatchet { roster_idx: p.roster_idx },
            Action::ReceiverRatchet { roster_idx: p.roster_idx },
            Action::StateTransition,
        ]
    }
}

/// What to do with a released payload, in this order: a handshake goes to
/// the group key; for any other payload the key chain of its sender is
/// synchronised and then moved on before the state changes.
pub fn actions_for(payload: &PayloadType) -> (actions: Vec<Action>)
    ensures
        actions@ == owed(payload@),
{
    let mut actions: Vec<Action> = Vec::new();
    if payload.generation() == u32::MAX {
        actions.push(Action::ProcessHandshake);
    } else {
        actions.push(Action::SyncRatchet { roster_idx: payload.roster_idx() });
        actions.push(Action::ReceiverRatchet { roster_idx: payload.roster_idx() });
        actions.push(Action::StateTransition);
    }
    assert(actions@ =~= owed(payload@));
    actions
}

/// For a payload that is no handshake the key chain of the sender is
/// synchronised first, moved on second, and only then the state changes.
pub proof fn lemma_ratchet_before_transition(p: PayloadView)
    requires
        !p.is_handshake(),
    ensures
        owed(p).len() == 3,
        owed(p)[0] == (Action::SyncRatchet { roster_idx: p.roster_idx }),
        owed(p)[1] == (Action::ReceiverRatchet { roster_idx: p.roster_idx }),
        owed(p)[2] == Action::StateTransition,
{
}

} // verus!
