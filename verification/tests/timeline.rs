use valkeeper::scheduler::balance_sufficient;
use valkeeper::scheduler::dispatch_timeline;
use valkeeper::scheduler::effective_max_time_diff;
use valkeeper::scheduler::effective_sleep;
use valkeeper::scheduler::election_deadline;
use valkeeper::scheduler::node_synced;
use valkeeper::scheduler::post_attempt_sleep;
use valkeeper::scheduler::TimelineAction;
use valkeeper::timeline::ElectorTimings;
use valkeeper::timeline::Timeline;

fn timings(start_before: u32, end_before: u32) -> ElectorTimings {
    ElectorTimings {
        validators_elected_for: 65536,
        elections_start_before: start_before,
        elections_end_before: end_before,
        stake_held_for: 32768,
    }
}

#[test]
fn before_elections_scenario() {
    // round_end = 1000, window opens at 700 and closes at 900; at 500 the
    // window is 200 seconds away.
    let t = timings(300, 100);
    let phase = Timeline::compute(&t, 1000, 500);
    assert_eq!(phase, Timeline::BeforeElections { until_elections_start: 200 });

    // The scheduler sleeps the distance plus its start offset.
    let action = dispatch_timeline(phase, 600, 120);
    assert_eq!(action, TimelineAction::Wait { seconds: 800 });
}

#[test]
fn window_opening_edge() {
    let t = timings(300, 100);
    let phase = Timeline::compute(&t, 1000, 700);
    assert_eq!(
        phase,
        Timeline::Elections {
            since_elections_start: 0,
            until_elections_end: 200,
            elections_end: 900,
        }
    );
}

#[test]
fn window_closing_edge() {
    let t = timings(300, 100);
    let phase = Timeline::compute(&t, 1000, 899);
    assert_eq!(
        phase,
        Timeline::Elections {
            since_elections_start: 199,
            until_elections_end: 1,
            elections_end: 900,
        }
    );
    let phase = Timeline::compute(&t, 1000, 900);
    assert_eq!(phase, Timeline::AfterElections { until_round_end: 100 });
}

#[test]
fn after_round_end_saturates() {
    let t = timings(300, 100);
    let phase = Timeline::compute(&t, 1000, 2000);
    assert_eq!(phase, Timeline::AfterElections { until_round_end: 0 });
}

#[test]
fn start_saturates_at_zero() {
    // A round shorter than the start-before margin opens its window at zero.
    let t = timings(300, 100);
    let phase = Timeline::compute(&t, 200, 0);
    assert_eq!(
        phase,
        Timeline::Elections {
            since_elections_start: 0,
            until_elections_end: 100,
            elections_end: 100,
        }
    );
}

#[test]
fn dispatch_too_early_in_window() {
    let phase = Timeline::Elections {
        since_elections_start: 10,
        until_elections_end: 500,
        elections_end: 900,
    };
    assert_eq!(dispatch_timeline(phase, 600, 120), TimelineAction::Wait { seconds: 590 });
}

#[test]
fn dispatch_too_late_in_window() {
    let phase = Timeline::Elections {
        since_elections_start: 700,
        until_elections_end: 50,
        elections_end: 900,
    };
    assert_eq!(dispatch_timeline(phase, 600, 120), TimelineAction::Wait { seconds: 70 });
}

#[test]
fn dispatch_participates_mid_window() {
    let phase = Timeline::Elections {
        since_elections_start: 650,
        until_elections_end: 150,
        elections_end: 900,
    };
    assert_eq!(dispatch_timeline(phase, 600, 120), TimelineAction::Participate {
        elections_end: 900
    });
}

#[test]
fn dispatch_after_elections_waits_for_round_end() {
    let phase = Timeline::AfterElections { until_round_end: 42 };
    assert_eq!(dispatch_timeline(phase, 600, 120), TimelineAction::Wait { seconds: 42 });
}

#[test]
fn sleep_floors_at_ten_seconds() {
    assert_eq!(effective_sleep(0), 0);
    assert_eq!(effective_sleep(3), 10);
    assert_eq!(effective_sleep(10), 10);
    assert_eq!(effective_sleep(800), 800);
}

#[test]
fn deadline_and_post_attempt() {
    assert_eq!(election_deadline(900, 120, 700), 80);
    assert_eq!(election_deadline(900, 120, 790), 0);
    assert_eq!(post_attempt_sleep(900, 760), 140);
    assert_eq!(post_attempt_sleep(900, 950), 0);
}

#[test]
fn sync_threshold_floors_at_five() {
    assert_eq!(effective_max_time_diff(120), 120);
    assert_eq!(effective_max_time_diff(0), 5);
    assert_eq!(effective_max_time_diff(3), 5);
}

#[test]
fn balance_poll_release() {
    // The balance loop releases only on an existing account holding at least
    // the target; a missing account counts as zero.
    assert!(balance_sufficient(Some(2_000_000_000), 2_000_000_000));
    assert!(!balance_sufficient(Some(1_999_999_999), 2_000_000_000));
    assert!(!balance_sufficient(None, 1));
}

#[test]
fn sync_check_modes() {
    // With `only_mc` (pooled mode) only the masterchain drift matters.
    assert!(node_synced(10, 10_000, 120, true));
    // Direct mode needs the shard drift within bounds too.
    assert!(!node_synced(10, 10_000, 120, false));
    assert!(node_synced(10, 20, 120, false));
    assert!(!node_synced(130, 10, 120, true));
}
