//! Sequence-number continuity checking.
//!
//! A connection's envelopes carry a server-assigned counter that is expected
//! to increase by exactly one per envelope.  The tracker keeps the last
//! number seen and classifies each incoming number.

use vstd::prelude::*;

verus! {

/// Classification of one incoming sequence number.
#[derive(Clone, Copy, Debug, PartialEq, Eq, Structural)]
pub enum SequenceCheck {
    /// The number continues the stream: the first message of the
    /// connection, or exactly one past the last number seen.
    Accept,
    /// The number repeats the last one seen or falls below it: the stream
    /// went backwards, and the envelope must be discarded.
    Regressed,
    /// The number jumps more than one ahead: messages were lost, but the
    /// envelope is still processed and the stored state advances.
    Gapped,
}

/// What one check does to a tracker state `(started, last)` on an incoming
/// number `n`: the classification, and the state after the check.
///
/// The first message of a connection is signalled by number zero; before it
/// arrives, `started` is false and `last` is zero.  Once started, a number
/// at or below `last` (a duplicate or a decrease) is regressed and the
/// state does not advance; `last + 1` is accepted; any larger number is
/// gapped and the state advances to it.
pub open spec fn sequence_step(started: bool, last: u64, n: u64) -> (SequenceCheck, bool, u64) {
    if !started && n == 0 {
        (SequenceCheck::Accept, true, 0u64)
    } else if started && n <= last {
        (SequenceCheck::Regressed, true, last)
    } else if n == last + 1 {
        (SequenceCheck::Accept, true, n)
    } else {
        (SequenceCheck::Gapped, true, n)
    }
}

/// Tracks the last-seen sequence number of one connection.
///
/// The state lives for one connection and is reset when a new one is
/// established.
pub struct SequenceTracker {
    started: bool,
    last: u64,
}

impl SequenceTracker {
    /// Whether a first message has been recorded on this connection.
    pub closed spec fn spec_started(&self) -> bool {
        self.started
    }

    /// The last sequence number that advanced the stored state.
    pub closed spec fn spec_last(&self) -> u64 {
        self.last
    }

    /// Before the first message arrives, the stored number is zero.
    pub open spec fn wf(&self) -> bool {
        !self.spec_started() ==> self.spec_last() == 0
    }

    /// A fresh tracker: nothing seen yet.
    pub fn new() -> (r: Self)
        ensures
            r.wf(),
            !r.spec_started(),
            r.spec_last() == 0,
    {
        SequenceTracker { started: false, last: 0 }
    }

    /// The last sequence number that advanced the stored state.
    pub fn last(&self) -> (n: u64)
        ensures
            n == self.spec_last(),
    {
        self.last
    }

    /// Classify `n` against the stored state and advance the state as
    /// `sequence_step` describes.
    pub fn check(&mut self, n: u64) -> (r: SequenceCheck)
        requires
            old(self).wf(),
        ensures
            final(self).wf(),
            (r, final(self).spec_started(), final(self).spec_last())
                == sequence_step(old(self).spec_started(), old(self).spec_last(), n),
    {
        if !self.started && n == 0 {
            self.started = true;
            return SequenceCheck::Accept;
        }
        if self.started && n <= self.last {
            return SequenceCheck::Regressed;
        }
        self.started = true;
        if n == self.last + 1 {
            self.last = n;
            SequenceCheck::Accept
        } else {
            self.last = n;
            SequenceCheck::Gapped
        }
    }
}

/// Law: over any well-formed tracker state, a first message numbered zero
/// and any contiguous increment are accepted, a repeat or a decrease is
/// regressed without advancing the stored state, and any larger jump is
/// gapped while still advancing the stored state to the incoming number.
pub proof fn lemma_sequence_classification(started: bool, last: u64, n: u64)
    requires
        !started ==> last == 0,
    ensures
        !started && n == 0 ==> sequence_step(started, last, n)
            == (SequenceCheck::Accept, true, 0u64),
        started && n <= last ==> sequence_step(started, last, n)
            == (SequenceCheck::Regressed, true, last),
        n == last + 1 ==> sequence_step(started, last, n)
            == (SequenceCheck::Accept, true, n),
        n > last + 1 ==> sequence_step(started, last, n)
            == (SequenceCheck::Gapped, true, n),
{
}

} // verus!
