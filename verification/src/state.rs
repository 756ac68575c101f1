//! Reservation states and the transitions allowed between them.
//!
//! Every transition applies to a whole reservation group: when a reservation
//! crosses a daily reset it is represented by one row per epoch sharing a
//! `root_id`, and those rows must never disagree about their state.
use vstd::prelude::*;

use crate::text::str_eq;

verus! {

#[derive(Debug, Clone, Copy, PartialEq, Eq, Hash, Structural)]
pub enum State {
    Reserved,
    Dispatching,
    DispatchedWithId,
    DispatchedIdUnknown,
    Settled,
    ConsumedUnrecoverable,
    ReleasedUnsent,
    /// Sent, and refused by upstream with a status proving that processing
    /// never started.
    RejectedBeforeProcessing,
}

/// The name a state is stored under.
pub open spec fn state_name(state: State) -> Seq<char> {
    match state {
        State::Reserved => "RESERVED"@,
        State::Dispatching => "DISPATCHING"@,
        State::DispatchedWithId => "DISPATCHED_WITH_ID"@,
        State::DispatchedIdUnknown => "DISPATCHED_ID_UNKNOWN"@,
        State::Settled => "SETTLED"@,
        State::ConsumedUnrecoverable => "CONSUMED_UNRECOVERABLE"@,
        State::ReleasedUnsent => "RELEASED_UNSENT"@,
        State::RejectedBeforeProcessing => "REJECTED_BEFORE_PROCESSING"@,
    }
}

/// Carries its liability in the pool's `reserved` counter.
pub open spec fn active(state: State) -> bool {
    state is Reserved || state is Dispatching || state is DispatchedWithId
        || state is DispatchedIdUnknown
}

/// May have reached the upstream provider and has not yet been resolved.
pub open spec fn maybe_sent(state: State) -> bool {
    state is Dispatching || state is DispatchedWithId || state is DispatchedIdUnknown
}

impl State {
    pub const ALL: [State; 8] = [
        State::Reserved,
        State::Dispatching,
        State::DispatchedWithId,
        State::DispatchedIdUnknown,
        State::Settled,
        State::ConsumedUnrecoverable,
        State::ReleasedUnsent,
        State::RejectedBeforeProcessing,
    ];

    pub fn as_str(self) -> (name: &'static str)
        ensures
            name@ == state_name(self),
    {
        match self {
            State::Reserved => "RESERVED",
            State::Dispatching => "DISPATCHING",
            State::DispatchedWithId => "DISPATCHED_WITH_ID",
            State::DispatchedIdUnknown => "DISPATCHED_ID_UNKNOWN",
            State::Settled => "SETTLED",
            State::ConsumedUnrecoverable => "CONSUMED_UNRECOVERABLE",
            State::ReleasedUnsent => "RELEASED_UNSENT",
            State::RejectedBeforeProcessing => "REJECTED_BEFORE_PROCESSING",
        }
    }

    /// The state stored under a name, if any is.
    pub fn parse(s: &str) -> (found: Option<State>)
        ensures
            match found {
                Some(state) => s@ == state_name(state),
                None => forall|state: State| s@ != state_name(state),
            },
    {
        let all: [State; 8] = State::ALL;
        let mut i: usize = 0;
        while i < 8
            invariant
                i <= 8,
                all == State::ALL,
                forall|j: int| 0 <= j < i ==> s@ != state_name(#[trigger] all@[j]),
            decreases 8 - i,
        {
            if str_eq(all[i].as_str(), s) {
                return Some(all[i]);
            }
            i = i + 1;
        }
        proof {
            assert forall|state: State| s@ != state_name(state) by {
                let j: int = match state {
                    State::Reserved => 0,
                    State::Dispatching => 1,
                    State::DispatchedWithId => 2,
                    State::DispatchedIdUnknown => 3,
                    State::Settled => 4,
                    State::ConsumedUnrecoverable => 5,
                    State::ReleasedUnsent => 6,
                    State::RejectedBeforeProcessing => 7,
                };
                assert(all@[j] == state);
            }
        }
        None
    }

    /// Carries its liability in the pool's `reserved` counter.
    pub fn is_active(self) -> (yes: bool)
        ensures
            yes == active(self),
    {
        matches!(
            self,
            State::Reserved
                | State::Dispatching
                | State::DispatchedWithId
                | State::DispatchedIdUnknown
        )
    }

    /// May have reached the upstream provider and has not yet been resolved,
    /// so its liability can only be removed by evidence of what happened.
    pub fn possibly_sent(self) -> (yes: bool)
        ensures
            yes == maybe_sent(self),
    {
        matches!(
            self,
            State::Dispatching | State::DispatchedWithId | State::DispatchedIdUnknown
        )
    }
}

#[derive(Debug, Clone, Copy, PartialEq, Eq, Structural)]
pub enum Transition {
    BeginDispatch,
    AttachResponseId,
    MarkIdUnknown,
    Settle,
    Unrecoverable,
    ReleaseUnsent,
    RejectBeforeProcessing,
}

/// The state a transition leads to.
pub open spec fn target_of(transition: Transition) -> State {
    match transition {
        Transition::BeginDispatch => State::Dispatching,
        Transition::AttachResponseId => State::DispatchedWithId,
        Transition::MarkIdUnknown => State::DispatchedIdUnknown,
        Transition::Settle => State::Settled,
        Transition::Unrecoverable => State::ConsumedUnrecoverable,
        Transition::ReleaseUnsent => State::ReleasedUnsent,
        Transition::RejectBeforeProcessing => State::RejectedBeforeProcessing,
    }
}

/// Whether a transition may leave `from`.
pub open spec fn allowed(transition: Transition, from: State) -> bool {
    match transition {
        Transition::BeginDispatch => from is Reserved,
        Transition::AttachResponseId => from is Dispatching,
        Transition::MarkIdUnknown => from is Dispatching,
        Transition::Settle => from is Dispatching || from is DispatchedWithId,
        Transition::Unrecoverable => maybe_sent(from),
        Transition::ReleaseUnsent => from is Reserved,
        Transition::RejectBeforeProcessing => from is Dispatching,
    }
}

impl Transition {
    pub fn target(self) -> (state: State)
        ensures
            state == target_of(self),
    {
        match self {
            Transition::BeginDispatch => State::Dispatching,
            Transition::AttachResponseId => State::DispatchedWithId,
            Transition::MarkIdUnknown => State::DispatchedIdUnknown,
            Transition::Settle => State::Settled,
            Transition::Unrecoverable => State::ConsumedUnrecoverable,
            Transition::ReleaseUnsent => State::ReleasedUnsent,
            Transition::RejectBeforeProcessing => State::RejectedBeforeProcessing,
        }
    }

    pub fn allowed_from(self, from: State) -> (yes: bool)
        ensures
            yes == allowed(self, from),
    {
        match self {
            Transition::BeginDispatch => from == State::Reserved,
            Transition::AttachResponseId => from == State::Dispatching,
            Transition::MarkIdUnknown => from == State::Dispatching,
            // Settling needs authoritative usage, which cannot be obtained
            // without the response id; an id-unknown request can only be
            // written off.
            Transition::Settle => matches!(from, State::Dispatching | State::DispatchedWithId),
            Transition::Unrecoverable => from.possibly_sent(),
            // Only a request that provably never reached the HTTP stack may
            // be released without evidence.
            Transition::ReleaseUnsent => from == State::Reserved,
            // A synchronous refusal of the create request arrives before any
            // response id exists. Once an id is known a response exists and
            // may be consuming, so this is no longer available.
            Transition::RejectBeforeProcessing => from == State::Dispatching,
        }
    }
}

/// Law: names are unambiguous, so a state is recovered from its stored name.
pub proof fn names_determine_states(a: State, b: State)
    requires
        state_name(a) == state_name(b),
    ensures
        a == b,
{
    reveal_strlit("RESERVED");
    reveal_strlit("DISPATCHING");
    reveal_strlit("DISPATCHED_WITH_ID");
    reveal_strlit("DISPATCHED_ID_UNKNOWN");
    reveal_strlit("SETTLED");
    reveal_strlit("CONSUMED_UNRECOVERABLE");
    reveal_strlit("RELEASED_UNSENT");
    reveal_strlit("REJECTED_BEFORE_PROCESSING");
    assert("RESERVED"@.len() == 8);
    assert("DISPATCHING"@.len() == 11);
    assert("DISPATCHED_WITH_ID"@.len() == 18);
    assert("DISPATCHED_ID_UNKNOWN"@.len() == 21);
    assert("SETTLED"@.len() == 7);
    assert("CONSUMED_UNRECOVERABLE"@.len() == 22);
    assert("RELEASED_UNSENT"@.len() == 15);
    assert("REJECTED_BEFORE_PROCESSING"@.len() == 26);
}

/// Law: a state without a liability is final. Nothing leaves it.
pub proof fn terminal_states_are_final(state: State, transition: Transition)
    requires
        !active(state),
    ensures
        !allowed(transition, state),
        !maybe_sent(state),
{
}

/// Law: a request that may have been sent is never released as unsent.
pub proof fn a_possibly_sent_request_is_never_released(state: State)
    requires
        maybe_sent(state),
    ensures
        !allowed(Transition::ReleaseUnsent, state),
{
}

/// Law: every transition of a request that may have been sent and is not a
/// refusal of the request itself either keeps it possibly sent or consumes.
pub proof fn evidence_is_needed_to_stop_counting(state: State, transition: Transition)
    requires
        maybe_sent(state),
        allowed(transition, state),
        transition != Transition::RejectBeforeProcessing,
    ensures
        maybe_sent(target_of(transition)) || target_of(transition) is Settled
            || target_of(transition) is ConsumedUnrecoverable,
{
}

/// Law: an unknown response id can only be written off.
pub proof fn id_unknown_can_only_be_written_off(transition: Transition)
    ensures
        allowed(transition, State::DispatchedIdUnknown) <==> transition
            == Transition::Unrecoverable,
{
}

/// Law: the life of a reservation. One that is reserved is sent or released;
/// one that is being sent learns its id or loses it, is settled, written off or
/// refused; one with an id is settled or written off; one whose id is lost is
/// written off; and nothing follows an end.
pub proof fn the_life_of_a_reservation(transition: Transition, from: State)
    ensures
        allowed(transition, from) <==> {
            let to = target_of(transition);
            match from {
                State::Reserved => to is Dispatching || to is ReleasedUnsent,
                State::Dispatching => to is DispatchedWithId || to is DispatchedIdUnknown
                    || to is Settled || to is ConsumedUnrecoverable
                    || to is RejectedBeforeProcessing,
                State::DispatchedWithId => to is Settled || to is ConsumedUnrecoverable,
                State::DispatchedIdUnknown => to is ConsumedUnrecoverable,
                State::Settled
                | State::ConsumedUnrecoverable
                | State::ReleasedUnsent
                | State::RejectedBeforeProcessing => false,
            }
        },
        active(from) <==> !(from is Settled || from is ConsumedUnrecoverable
            || from is ReleasedUnsent || from is RejectedBeforeProcessing),
        maybe_sent(from) <==> active(from) && !(from is Reserved),
{
}

/// Law: each transition leads to a state of its own, and each state is stored
/// under the name of its own that the schema gives it.
pub proof fn transitions_and_names_are_told_apart(a: Transition, b: Transition, state: State)
    ensures
        target_of(a) == target_of(b) ==> a == b,
        !(target_of(a) is Reserved),
        state_name(state) == match state {
            State::ReleasedUnsent => "RELEASED_UNSENT"@,
            State::RejectedBeforeProcessing => "REJECTED_BEFORE_PROCESSING"@,
            State::ConsumedUnrecoverable => "CONSUMED_UNRECOVERABLE"@,
            State::Settled => "SETTLED"@,
            State::DispatchedIdUnknown => "DISPATCHED_ID_UNKNOWN"@,
            State::DispatchedWithId => "DISPATCHED_WITH_ID"@,
            State::Dispatching => "DISPATCHING"@,
            State::Reserved => "RESERVED"@,
        },
{
}

} // verus!
