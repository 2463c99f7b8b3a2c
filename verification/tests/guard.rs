use valkeeper::guard::GuardHolder;
use valkeeper::guard::ShutdownState;

#[test]
fn termination_during_call_waits_for_the_guard() {
    // The scheduler takes the guard for an on-chain call; the termination
    // signal arrives mid-call. The watcher cannot cancel until the call
    // completes and the guard is free.
    let mut st = ShutdownState::new();
    st.scheduler_acquire();
    st.request_termination();
    assert_eq!(st.holder, GuardHolder::Scheduler);
    assert!(st.termination_requested);
    assert!(!st.cancelled);

    // The call finishes; only then can the watcher take the guard and cancel.
    st.scheduler_release();
    assert_eq!(st.holder, GuardHolder::Nobody);
    st.watcher_acquire_and_cancel();
    assert!(st.cancelled);
    assert_eq!(st.holder, GuardHolder::Watcher);
}

#[test]
fn signal_without_guard_held_cancels_at_once() {
    let mut st = ShutdownState::new();
    st.request_termination();
    st.watcher_acquire_and_cancel();
    assert!(st.cancelled);
}
