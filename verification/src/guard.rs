//! The shutdown-guard protocol: a mutual-exclusion token shared between the
//! scheduler and the termination watcher. The scheduler holds the token
//! around every on-chain mutation; the watcher, once a termination signal has
//! arrived, must acquire the same token before it cancels the scheduler, so
//! no in-flight transaction is abandoned mid-call. The async mutex realizing
//! the token lives outside; this module is the protocol those parties follow,
//! with the transitions each of them is allowed.

use vstd::prelude::*;

verus! {

/// Who holds the shutdown guard.
#[derive(Clone, Copy, Debug, PartialEq, Eq, Structural)]
pub enum GuardHolder {
    Nobody,
    Scheduler,
    Watcher,
}

/// The joint state of the shutdown protocol.
#[derive(Clone, Copy, Debug, PartialEq, Eq, Structural)]
pub struct ShutdownState {
    pub holder: GuardHolder,
    pub termination_requested: bool,
    pub cancelled: bool,
}

/// Whether the watcher may cancel the scheduler right now: a termination
/// signal has arrived and the guard is free to take.
pub open spec fn spec_can_cancel(state: ShutdownState) -> bool {
    state.termination_requested && state.holder == GuardHolder::Nobody
}

impl ShutdownState {
    /// Cancellation only ever happens with the watcher holding the guard.
    pub open spec fn wf(self) -> bool {
        self.cancelled ==> self.holder == GuardHolder::Watcher && self.termination_requested
    }

    /// The initial state: guard free, no signal, not cancelled.
    pub fn new() -> (r: ShutdownState)
        ensures
            r.wf(),
            r == (ShutdownState {
                holder: GuardHolder::Nobody,
                termination_requested: false,
                cancelled: false,
            }),
    {
        ShutdownState { holder: GuardHolder::Nobody, termination_requested: false, cancelled: false }
    }

    /// A termination signal arrives. It does not interrupt anything by
    /// itself: only the request flag is raised.
    pub fn request_termination(&mut self)
        requires
            old(self).wf(),
        ensures
            final(self).wf(),
            *final(self) == (ShutdownState { termination_requested: true, ..*old(self) }),
    {
        self.termination_requested = true;
    }

    /// The scheduler takes the guard before an on-chain mutation. It can only
    /// do so while the guard is free, and taking it does not cancel anything.
    pub fn scheduler_acquire(&mut self)
        requires
            old(self).wf(),
            old(self).holder == GuardHolder::Nobody,
        ensures
            final(self).wf(),
            *final(self) == (ShutdownState { holder: GuardHolder::Scheduler, ..*old(self) }),
            !final(self).cancelled,
    {
        self.holder = GuardHolder::Scheduler;
    }

    /// The scheduler releases the guard after its on-chain call completed.
    pub fn scheduler_release(&mut self)
        requires
            old(self).wf(),
            old(self).holder == GuardHolder::Scheduler,
        ensures
            final(self).wf(),
            *final(self) == (ShutdownState { holder: GuardHolder::Nobody, ..*old(self) }),
    {
        self.holder = GuardHolder::Nobody;
    }

    /// The watcher acquires the guard and cancels the scheduler. This is the
    /// only transition that cancels, and it needs both the pending signal and
    /// a free guard — so it can never fire while the scheduler is inside an
    /// on-chain call.
    pub fn watcher_acquire_and_cancel(&mut self)
        requires
            old(self).wf(),
            spec_can_cancel(*old(self)),
        ensures
            final(self).wf(),
            *final(self) == (ShutdownState {
                holder: GuardHolder::Watcher,
                termination_requested: true,
                cancelled: true,
            }),
    {
        self.holder = GuardHolder::Watcher;
        self.cancelled = true;
    }
}

/// While the scheduler holds the guard, cancellation cannot fire: a
/// termination signal arriving mid-call leaves the watcher blocked until the
/// call completes and the guard is released.
pub proof fn lemma_no_cancel_during_call(state: ShutdownState)
    requires
        state.wf(),
        state.holder == GuardHolder::Scheduler,
    ensures
        !spec_can_cancel(state),
        !state.cancelled,
{
}

} // verus!
