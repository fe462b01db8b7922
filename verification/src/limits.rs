//! Poll limits.
use vstd::prelude::*;

verus! {

/// Conservative limit used where the caller gives none.
pub const DEFAULT_POLL_LIMIT: u32 = 1_000_000;

/// A number of polls that is never zero.
#[derive(Clone, Copy, Debug, PartialEq, Eq)]
pub struct PollLimit {
    polls: u32,
}

impl View for PollLimit {
    type V = u32;

    closed spec fn view(&self) -> u32 {
        self.polls
    }
}

impl PollLimit {
    #[verifier::type_invariant]
    spec fn nonzero(self) -> bool {
        self.polls != 0
    }

    /// A limit of `polls`, or `None` for zero.
    pub fn new(polls: u32) -> (limit: Option<PollLimit>)
        ensures
            limit is Some <==> polls != 0,
            limit is Some ==> limit->0@ == polls,
    {
        if polls == 0 {
            None
        } else {
            Some(PollLimit { polls })
        }
    }

    /// The number of polls.
    pub fn get(self) -> (polls: u32)
        ensures
            polls == self@,
            polls != 0,
    {
        proof {
            use_type_invariant(&self);
        }
        self.polls
    }

    /// The limit that the default poll limits use throughout.
    pub(crate) fn conservative() -> (limit: PollLimit)
        ensures
            limit@ == DEFAULT_POLL_LIMIT,
    {
        PollLimit { polls: DEFAULT_POLL_LIMIT }
    }
}

} // verus!
