//! The decision core of the registry-index refresh loop.
//!
//! The periodic task refreshes once immediately, then forever
//! alternates waiting for the next timer tick with refreshing again,
//! one refresh in flight at a time. The waiting and the refreshing
//! themselves are the runner's concern; this state machine decides, at
//! every step, which of the two comes next, and its trace is proved to
//! alternate starting with a refresh — so the k-th refresh happens
//! after exactly k waited intervals.

use vstd::prelude::*;

verus! {

/// What the refresh loop does next.
#[derive(Clone, Copy, Debug, PartialEq, Eq, Structural)]
pub enum RefreshAction {
    /// Trigger one retrieve-or-update of the index, and wait for it to
    /// finish before anything else.
    Refresh,
    /// Wait for the next timer tick.
    WaitTick,
}

/// The action a well-formed trace holds at a position: refreshes at
/// even positions, tick-waits at odd ones.
pub open spec fn expected_action(i: int) -> RefreshAction {
    if i % 2 == 0 {
        RefreshAction::Refresh
    } else {
        RefreshAction::WaitTick
    }
}

/// How many tick-waits a trace holds.
pub open spec fn wait_count(t: Seq<RefreshAction>) -> int
    decreases t.len(),
{
    if t.len() == 0 {
        0
    } else {
        wait_count(t.drop_last()) + if t.last() is WaitTick {
            1int
        } else {
            0int
        }
    }
}

/// The schedule of the periodic refresh task: hands out the next
/// action, keeping the trace of all actions handed out.
pub struct RefreshSchedule {
    refresh_next: bool,
    trace: Ghost<Seq<RefreshAction>>,
}

impl RefreshSchedule {
    /// The actions handed out so far, in order.
    pub closed spec fn trace(&self) -> Seq<RefreshAction> {
        self.trace@
    }

    /// The trace alternates refresh, wait, refresh, wait, … and the
    /// next action continues the alternation.
    pub open spec fn wf(&self) -> bool {
        &&& forall|i: int| 0 <= i < self.trace().len() ==> self.trace()[i] == expected_action(i)
        &&& self.next_is_refresh() == (self.trace().len() % 2 == 0)
    }

    /// Whether the next action handed out will be a refresh.
    pub closed spec fn next_is_refresh(&self) -> bool {
        self.refresh_next
    }

    /// A fresh schedule: the first action is an immediate refresh.
    pub fn new() -> (s: RefreshSchedule)
        ensures
            s.wf(),
            s.trace() == Seq::<RefreshAction>::empty(),
    {
        RefreshSchedule { refresh_next: true, trace: Ghost(Seq::empty()) }
    }

    /// Hand out the next action of the loop.
    pub fn advance(&mut self) -> (a: RefreshAction)
        requires
            old(self).wf(),
        ensures
            final(self).wf(),
            final(self).trace() == old(self).trace().push(a),
            a == expected_action(old(self).trace().len() as int),
    {
        let a = if self.refresh_next {
            RefreshAction::Refresh
        } else {
            RefreshAction::WaitTick
        };
        self.refresh_next = !self.refresh_next;
        proof {
            self.trace@ = self.trace@.push(a);
        }
        a
    }
}

/// In an alternating trace every prefix holds one tick-wait for every
/// two actions.
proof fn lemma_wait_count_alternating(t: Seq<RefreshAction>)
    requires
        forall|i: int| 0 <= i < t.len() ==> t[i] == expected_action(i),
    ensures
        wait_count(t) == t.len() / 2,
    decreases t.len(),
{
    if t.len() > 0 {
        assert forall|i: int| 0 <= i < t.drop_last().len() implies t.drop_last()[i]
            == expected_action(i) by {
            assert(t.drop_last()[i] == t[i]);
        }
        lemma_wait_count_alternating(t.drop_last());
        assert(t.last() == expected_action(t.len() - 1));
    }
}

/// The refresh cadence: in a well-formed schedule the k-th refresh
/// (counting from zero) stands at position `2 k` of the trace, after
/// exactly `k` waited intervals — with a timer of period `T` started at
/// time zero, refreshes happen at `0, T, 2 T, …`, one at a time.
pub proof fn lemma_refresh_cadence(s: RefreshSchedule, k: int)
    requires
        s.wf(),
        0 <= 2 * k < s.trace().len(),
    ensures
        s.trace()[2 * k] == RefreshAction::Refresh,
        wait_count(s.trace().take(2 * k)) == k,
{
    assert(s.trace()[2 * k] == expected_action(2 * k));
    assert((2 * k) % 2 == 0) by (nonlinear_arith);
    assert forall|i: int| 0 <= i < s.trace().take(2 * k).len() implies s.trace().take(2 * k)[i]
        == expected_action(i) by {
        assert(s.trace().take(2 * k)[i] == s.trace()[i]);
    }
    lemma_wait_count_alternating(s.trace().take(2 * k));
    assert((2 * k) / 2 == k) by (nonlinear_arith);
}

} // verus!
