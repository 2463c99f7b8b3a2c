//! Decisions of the election scheduler: whether the node counts as synced,
//! what to do at each phase of the timeline, how long a single attempt may
//! run, and how long to sleep after it. The scheduler's outer loop performs
//! the waiting and the chain calls; every choice it acts on is computed here.

use vstd::prelude::*;

use crate::timeline::Timeline;

verus! {

/// What the scheduler does after consulting the timeline: either sleep and
/// re-enter the attempt, or participate now, remembering when the window
/// closes.
#[derive(Clone, Copy, Debug, PartialEq, Eq, Structural)]
pub enum TimelineAction {
    Wait { seconds: u64 },
    Participate { elections_end: u32 },
}

/// The sync threshold: the configured bound, floored at five seconds.
pub fn effective_max_time_diff(raw: u16) -> (r: i32)
    ensures
        r == if raw as i32 >= 5 {
            raw as i32
        } else {
            5
        },
{
    let raw: i32 = raw as i32;
    if raw >= 5 {
        raw
    } else {
        5
    }
}

/// Whether the node's reported drifts are within the threshold. The
/// masterchain drift must always be below the bound; in direct mode the shard
/// drift must be too, while the pooled mode (`only_mc`) watches the
/// masterchain alone.
pub fn node_synced(mc_time_diff: i32, sc_time_diff: i32, max_time_diff: i32, only_mc: bool) -> (r:
    bool)
    ensures
        r == (mc_time_diff < max_time_diff && (only_mc || sc_time_diff < max_time_diff)),
{
    mc_time_diff < max_time_diff && (only_mc || sc_time_diff < max_time_diff)
}

/// What the scheduler does given the phase and its window offsets.
pub open spec fn spec_dispatch_timeline(
    timeline: Timeline,
    elections_start_offset: u32,
    elections_end_offset: u32,
) -> TimelineAction {
    match timeline {
        Timeline::BeforeElections { until_elections_start } => TimelineAction::Wait {
            seconds: (until_elections_start + elections_start_offset) as u64,
        },
        Timeline::Elections { since_elections_start, until_elections_end, elections_end } => {
            if since_elections_start <= elections_start_offset {
                TimelineAction::Wait {
                    seconds: (elections_start_offset - since_elections_start) as u64,
                }
            } else if until_elections_end <= elections_end_offset {
                TimelineAction::Wait { seconds: (elections_end_offset - until_elections_end) as u64 }
            } else {
                TimelineAction::Participate { elections_end }
            }
        },
        Timeline::AfterElections { until_round_end } => TimelineAction::Wait {
            seconds: until_round_end as u64,
        },
    }
}

/// Chooses the scheduler's next move. Before the window: sleep until it opens
/// plus the start offset. Inside the window: sleep out the remainder of the
/// start offset if the window opened too recently; sleep out the end-offset
/// margin if the window is about to close (the attempt is doomed); otherwise
/// participate. After the window: sleep until the round ends.
pub fn dispatch_timeline(
    timeline: Timeline,
    elections_start_offset: u32,
    elections_end_offset: u32,
) -> (r: TimelineAction)
    ensures
        r == spec_dispatch_timeline(timeline, elections_start_offset, elections_end_offset),
{
    match timeline {
        Timeline::BeforeElections { until_elections_start } => TimelineAction::Wait {
            seconds: until_elections_start as u64 + elections_start_offset as u64,
        },
        Timeline::Elections { since_elections_start, until_elections_end, elections_end } => {
            if since_elections_start <= elections_start_offset {
                TimelineAction::Wait {
                    seconds: (elections_start_offset - since_elections_start) as u64,
                }
            } else if until_elections_end <= elections_end_offset {
                TimelineAction::Wait {
                    seconds: (elections_end_offset - until_elections_end) as u64,
                }
            } else {
                TimelineAction::Participate { elections_end }
            }
        },
        Timeline::AfterElections { until_round_end } => TimelineAction::Wait {
            seconds: until_round_end as u64,
        },
    }
}

/// A non-zero wait between attempts is floored at ten seconds; a zero wait
/// means re-entering at once.
pub fn effective_sleep(seconds: u64) -> (r: u64)
    ensures
        r == if seconds == 0 {
            0u64
        } else if seconds >= 10 {
            seconds
        } else {
            10u64
        },
{
    if seconds == 0 {
        0
    } else if seconds >= 10 {
        seconds
    } else {
        10
    }
}

/// How long an election attempt may run: until the end offset before the
/// window closes, measured from `now`; zero when that margin has passed.
pub fn election_deadline(elections_end: u32, elections_end_offset: u32, now: u32) -> (r: u64)
    ensures
        r == crate::timeline::sat_sub(
            crate::timeline::sat_sub(elections_end, elections_end_offset),
            now,
        ) as u64,
{
    elections_end.saturating_sub(elections_end_offset).saturating_sub(now) as u64
}

/// How long to sleep after an attempt: until the nominal close of the window.
pub fn post_attempt_sleep(elections_end: u32, now: u32) -> (r: u64)
    ensures
        r == crate::timeline::sat_sub(elections_end, now) as u64,
{
    elections_end.saturating_sub(now) as u64
}

/// Whether a fetched balance releases the balance-polling loop: the account
/// must exist and hold at least the target.
pub fn balance_sufficient(balance: Option<u128>, target: u128) -> (r: bool)
    ensures
        r == (balance matches Some(b) && b >= target),
{
    match balance {
        Some(b) => b >= target,
        None => false,
    }
}

} // verus!
