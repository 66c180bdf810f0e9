//! The clone progress model: object transfer, delta resolution and
//! checkout each report on an independent scale, and the visual range is
//! reset exactly once, on the transition into delta resolution.

use vstd::prelude::*;

verus! {

/// The phase a clone operation is in.
#[derive(Clone, Copy, Debug, PartialEq, Eq, Structural)]
pub enum ClonePhase {
    /// Objects are being received from the remote.
    Receiving,
    /// Received deltas are being resolved.
    ResolvingDeltas,
    /// Files are being checked out into the target directory.
    CheckingOut,
}

/// One progress report, as the transport or the checkout delivers it.
#[derive(Clone, Copy, Debug, PartialEq, Eq, Structural)]
pub enum CloneEvent {
    /// Received and total object counts.
    Objects { received: u64, total: u64 },
    /// Indexed and total delta counts; an independent scale.
    Deltas { indexed: u64, total: u64 },
    /// Checked-out and total file counts; an independent scale.
    Checkout { done: u64, total: u64 },
}

/// What the display should do with one observation.
#[derive(Clone, Copy, Debug, PartialEq, Eq, Structural)]
pub enum ProgressAction {
    /// Start a fresh visual range for a new scale, then show the counts.
    ResetRange { current: u64, total: u64 },
    /// Advance the current range to the given counts.
    Show { current: u64, total: u64 },
}

/// The mutable progress state of one clone operation; it lives exactly as
/// long as that clone call.
pub struct CloneProgress {
    /// The phase the last observation belongs to.
    pub phase: ClonePhase,
    pub total_objects: u64,
    pub received_objects: u64,
    pub total_deltas: u64,
    pub indexed_deltas: u64,
    pub checkout_total: u64,
    pub checkout_done: u64,
    /// Set once delta resolution has begun; it never clears, so the range
    /// reset on that transition happens at most once.
    pub resolving_deltas: bool,
}

/// Display fraction of `cur` out of `total`, in percent, capped at 100;
/// an empty scale (`total == 0`) counts as complete rather than an error.
pub open spec fn percent_spec(cur: u64, total: u64) -> int {
    if total == 0 {
        100
    } else if cur >= total {
        100
    } else {
        (cur * 100) / (total as int)
    }
}

/// Display percentage of `cur` out of `total`, as `percent_spec` describes
/// it; safe on an empty scale.
pub fn percent(cur: u64, total: u64) -> (r: u8)
    ensures
        r == percent_spec(cur, total),
{
    if total == 0 {
        100
    } else if cur >= total {
        100
    } else {
        let p: u128 = (cur as u128) * 100 / (total as u128);
        proof {
            assert(cur * 100 / (total as int) < 100) by (nonlinear_arith)
                requires
                    0 < total,
                    0 <= cur < total,
            ;
            assert(cur * 100 / (total as int) >= 0) by (nonlinear_arith)
                requires
                    0 < total,
                    0 <= cur,
            ;
        }
        p as u8
    }
}

impl CloneProgress {
    /// The state before the first observation.
    pub fn new() -> (r: CloneProgress)
        ensures
            r.phase is Receiving,
            !r.resolving_deltas,
            r.total_objects == 0 && r.received_objects == 0,
            r.total_deltas == 0 && r.indexed_deltas == 0,
            r.checkout_total == 0 && r.checkout_done == 0,
    {
        CloneProgress {
            phase: ClonePhase::Receiving,
            total_objects: 0,
            received_objects: 0,
            total_deltas: 0,
            indexed_deltas: 0,
            checkout_total: 0,
            checkout_done: 0,
            resolving_deltas: false,
        }
    }

    /// Takes one observation: counters follow the event, the phase follows
    /// the event's scale, and the action is a range reset exactly when the
    /// event is the first delta observation — the one transition between
    /// scales that must restart the visual range.
    pub fn observe(&mut self, ev: CloneEvent) -> (r: ProgressAction)
        ensures
            match ev {
                CloneEvent::Objects { received, total } => final(self).phase is Receiving
                    && final(self).received_objects == received
                    && final(self).total_objects == total
                    && r == (ProgressAction::Show { current: received, total }),
                CloneEvent::Deltas { indexed, total } => final(self).phase is ResolvingDeltas
                    && final(self).indexed_deltas == indexed && final(self).total_deltas == total
                    && (if old(self).resolving_deltas {
                    r == (ProgressAction::Show { current: indexed, total })
                } else {
                    r == (ProgressAction::ResetRange { current: indexed, total })
                }),
                CloneEvent::Checkout { done, total } => final(self).phase is CheckingOut
                    && final(self).checkout_done == done
                    && final(self).checkout_total == total
                    && r == (ProgressAction::Show { current: done, total }),
            },
            final(self).resolving_deltas == (old(self).resolving_deltas || ev is Deltas),
            r is ResetRange <==> (ev is Deltas && !old(self).resolving_deltas),
    {
        match ev {
            CloneEvent::Objects { received, total } => {
                self.phase = ClonePhase::Receiving;
                self.received_objects = received;
                self.total_objects = total;
                ProgressAction::Show { current: received, total }
            },
            CloneEvent::Deltas { indexed, total } => {
                self.phase = ClonePhase::ResolvingDeltas;
                self.indexed_deltas = indexed;
                self.total_deltas = total;
                if self.resolving_deltas {
                    ProgressAction::Show { current: indexed, total }
                } else {
                    self.resolving_deltas = true;
                    ProgressAction::ResetRange { current: indexed, total }
                }
            },
            CloneEvent::Checkout { done, total } => {
                self.phase = ClonePhase::CheckingOut;
                self.checkout_done = done;
                self.checkout_total = total;
                ProgressAction::Show { current: done, total }
            },
        }
    }
}

/// Once delta resolution has begun, no later observation — whatever its
/// event — ever resets the visual range again: the reset happens exactly
/// once, on the transition.
pub proof fn lemma_reset_at_most_once(
    s0: CloneProgress,
    s1: CloneProgress,
    s2: CloneProgress,
    e1: CloneEvent,
    e2: CloneEvent,
    r1: ProgressAction,
    r2: ProgressAction,
)
    requires
        s1.resolving_deltas == (s0.resolving_deltas || e1 is Deltas),
        r1 is ResetRange <==> (e1 is Deltas && !s0.resolving_deltas),
        s2.resolving_deltas == (s1.resolving_deltas || e2 is Deltas),
        r2 is ResetRange <==> (e2 is Deltas && !s1.resolving_deltas),
        r1 is ResetRange,
    ensures
        !(r2 is ResetRange),
{
}

} // verus!
