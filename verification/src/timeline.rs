//! The timeline calculator: a pure map from (elector timing parameters,
//! round end, current time) to one of three phases of the validation round.

use vstd::prelude::*;

verus! {

/// Elector timing parameters, as carried by the chain's configuration.
/// All values are seconds.
#[derive(Clone, Copy, Debug, PartialEq, Eq, Structural)]
pub struct ElectorTimings {
    pub validators_elected_for: u32,
    pub elections_start_before: u32,
    pub elections_end_before: u32,
    pub stake_held_for: u32,
}

/// Where the current moment stands on the validation round.
#[derive(Clone, Copy, Debug, PartialEq, Eq, Structural)]
pub enum Timeline {
    /// The elections window has not opened yet.
    BeforeElections { until_elections_start: u32 },
    /// The elections window is open.
    Elections { since_elections_start: u32, until_elections_end: u32, elections_end: u32 },
    /// The elections window has closed; the round is running out.
    AfterElections { until_round_end: u32 },
}

/// Subtraction on seconds that bottoms out at zero.
pub open spec fn sat_sub(a: u32, b: u32) -> u32 {
    if a >= b {
        (a - b) as u32
    } else {
        0
    }
}

/// When the elections window opens: `round_end - elections_start_before`,
/// saturating.
pub open spec fn spec_elections_start(timings: ElectorTimings, round_end: u32) -> u32 {
    sat_sub(round_end, timings.elections_start_before)
}

/// When the elections window closes: `round_end - elections_end_before`,
/// saturating.
pub open spec fn spec_elections_end(timings: ElectorTimings, round_end: u32) -> u32 {
    sat_sub(round_end, timings.elections_end_before)
}

/// The phase at time `now`: before the window when `now` is below its open
/// time, inside the window up to (excluding) its close time, after it
/// otherwise.
pub open spec fn spec_timeline(timings: ElectorTimings, round_end: u32, now: u32) -> Timeline {
    let start = spec_elections_start(timings, round_end);
    let end = spec_elections_end(timings, round_end);
    if now < start {
        Timeline::BeforeElections { until_elections_start: (start - now) as u32 }
    } else if now < end {
        Timeline::Elections {
            since_elections_start: (now - start) as u32,
            until_elections_end: (end - now) as u32,
            elections_end: end,
        }
    } else {
        Timeline::AfterElections { until_round_end: sat_sub(round_end, now) }
    }
}

impl Timeline {
    /// Computes the phase of the validation round at time `now`, given the
    /// end of the current round (the validator set's expiry) and the elector
    /// timing parameters.
    pub fn compute(timings: &ElectorTimings, round_end: u32, now: u32) -> (r: Timeline)
        ensures
            r == spec_timeline(*timings, round_end, now),
    {
        let elections_start = round_end.saturating_sub(timings.elections_start_before);
        let elections_end = round_end.saturating_sub(timings.elections_end_before);

        if now < elections_start {
            Timeline::BeforeElections { until_elections_start: elections_start - now }
        } else if now < elections_end {
            Timeline::Elections {
                since_elections_start: now - elections_start,
                until_elections_end: elections_end - now,
                elections_end,
            }
        } else {
            Timeline::AfterElections { until_round_end: round_end.saturating_sub(now) }
        }
    }
}

/// The phase is total and the three variants tile the time axis: exactly one
/// variant holds for every input, decided by where `now` falls against the
/// window bounds.
pub proof fn lemma_timeline_total(timings: ElectorTimings, round_end: u32, now: u32)
    ensures
        spec_timeline(timings, round_end, now) matches Timeline::BeforeElections { .. } <==> now
            < spec_elections_start(timings, round_end),
        spec_timeline(timings, round_end, now) matches Timeline::Elections { .. } <==> (
        spec_elections_start(timings, round_end) <= now && now < spec_elections_end(
            timings,
            round_end,
        )),
        spec_timeline(timings, round_end, now) matches Timeline::AfterElections { .. } <==> (
        spec_elections_start(timings, round_end) <= now && spec_elections_end(timings, round_end)
            <= now),
{
}

/// At the very opening of the window the phase is `Elections` with zero
/// elapsed; one second before the close it is `Elections` with one second
/// left; at the close itself it is already `AfterElections`.
pub proof fn lemma_timeline_window_edges(timings: ElectorTimings, round_end: u32)
    requires
        spec_elections_start(timings, round_end) < spec_elections_end(timings, round_end),
    ensures
        spec_timeline(timings, round_end, spec_elections_start(timings, round_end)) == (
        Timeline::Elections {
            since_elections_start: 0,
            until_elections_end: (spec_elections_end(timings, round_end) - spec_elections_start(
                timings,
                round_end,
            )) as u32,
            elections_end: spec_elections_end(timings, round_end),
        }),
        spec_timeline(
            timings,
            round_end,
            (spec_elections_end(timings, round_end) - 1) as u32,
        ) matches Timeline::Elections { until_elections_end, .. } && until_elections_end == 1,
        spec_timeline(timings, round_end, spec_elections_end(timings, round_end)) == (
        Timeline::AfterElections {
            until_round_end: sat_sub(round_end, spec_elections_end(timings, round_end)),
        }),
{
}

} // verus!
