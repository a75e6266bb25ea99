//! Keyphasor edges and levels on the time axis of a view, in timer ticks from the
//! start of the data.

use crate::keyphasor::in_time_order;
use crate::protocol::Sample;
use vstd::prelude::*;

verus! {

/// Ticks of the timer in a second.
pub const SYSTIMER_TICKS_PER_S: u64 = 16_000_000;

// ---------------------------------------------------------------------------
// Edges
// ---------------------------------------------------------------------------

/// The edges from `start` up to `end`, counted from `start`.
pub open spec fn edges_in(kp: Seq<u64>, start: u64, end: u64) -> Seq<u64>
    decreases kp.len(),
{
    if kp.len() == 0 {
        seq![]
    } else {
        let before = edges_in(kp.drop_last(), start, end);
        if start <= kp.last() < end {
            before.push((kp.last() - start) as u64)
        } else {
            before
        }
    }
}

/// The edges in the window from `start_tick` up to `end_tick`, counted from its
/// start.
pub fn kp_ticks_to_offsets(kp_ticks: &[u64], start_tick: u64, end_tick: u64) -> (r: Vec<u64>)
    ensures
        r@ == edges_in(kp_ticks@, start_tick, end_tick),
        r@.len() <= kp_ticks@.len(),
{
    let mut out: Vec<u64> = Vec::new();
    for i in 0..kp_ticks.len()
        invariant
            out@ == edges_in(kp_ticks@.take(i as int), start_tick, end_tick),
            out@.len() <= i,
    {
        assert(kp_ticks@.take(i + 1).drop_last() =~= kp_ticks@.take(i as int));
        let t: u64 = kp_ticks[i];
        if t >= start_tick && t < end_tick {
            out.push(t - start_tick);
        }
    }
    assert(kp_ticks@.take(kp_ticks@.len() as int) =~= kp_ticks@);
    out
}

/// Every edge of the window is shown, once and in order, and nothing else is: the places
/// `at` of the edges that are shown count up, each is shown at its distance from the start
/// of the window, and no edge of the window is left out.
pub proof fn law_every_edge_is_shown(kp: Seq<u64>, start: u64, end: u64) -> (at: Seq<int>)
    ensures
        at.len() == edges_in(kp, start, end).len(),
        forall|k: int|
            #![trigger at[k]]
            0 <= k < at.len() ==> 0 <= at[k] < kp.len() && start <= kp[at[k]] < end && edges_in(
                kp,
                start,
                end,
            )[k] == kp[at[k]] - start,
        forall|k: int, l: int| #![trigger at[k], at[l]] 0 <= k < l < at.len() ==> at[k] < at[l],
        forall|i: int|
            #![trigger kp[i]]
            0 <= i < kp.len() && start <= kp[i] < end ==> at.contains(i),
    decreases kp.len(),
{
    if kp.len() == 0 {
        Seq::empty()
    } else {
        let front = kp.drop_last();
        let last = kp.len() - 1;
        let before = law_every_edge_is_shown(front, start, end);
        let at = if start <= kp[last] < end {
            before.push(last)
        } else {
            before
        };
        assert forall|k: int| #![trigger at[k]] 0 <= k < at.len() implies 0 <= at[k] < kp.len()
            && start <= kp[at[k]] < end && edges_in(kp, start, end)[k] == kp[at[k]] - start by {
            if k < before.len() {
                assert(at[k] == before[k] && front[before[k]] == kp[before[k]]);
            }
        }
        assert forall|i: int|
            #![trigger kp[i]]
            0 <= i < kp.len() && start <= kp[i] < end implies at.contains(i) by {
            if i < last {
                assert(front[i] == kp[i]);
                let k = choose|k: int| 0 <= k < before.len() && before[k] == i;
                assert(at[k] == i);
            } else {
                assert(at[before.len() as int] == i);
            }
        }
        at
    }
}

/// The revolutions on the tacho lead from each edge that is shown to the next one, with
/// none left out: each starts where the one before ends, and there is one less of them than
/// there are edges.
pub proof fn law_tacho_steps_follow_the_edges(kp: Seq<u64>, start: u64, end: u64)
    ensures
        ({
            let e = edges_in(kp, start, end);
            let steps = steps_between(e);
            &&& e.len() > 0 ==> steps.len() == e.len() - 1
            &&& e.len() == 0 ==> steps.len() == 0
            &&& forall|i: int|
                #![trigger steps[i]]
                0 <= i < steps.len() ==> steps[i].start == e[i] && steps[i].end == e[i + 1]
            &&& forall|i: int|
                #![trigger steps[i]]
                0 < i < steps.len() ==> steps[i].start == steps[i - 1].end
        }),
{
}

/// One revolution, from edge to edge.
#[derive(Debug, Clone, Copy, PartialEq, Eq, Structural)]
pub struct TachoStep {
    pub start: u64,
    pub end: u64,
}

/// The revolutions between the edges of a window.
pub open spec fn steps_between(edges: Seq<u64>) -> Seq<TachoStep> {
    Seq::new(
        if edges.len() < 2 {
            0
        } else {
            (edges.len() - 1) as nat
        },
        |i: int| TachoStep { start: edges[i], end: edges[i + 1] },
    )
}

/// The revolutions in the window from `start_tick` up to `end_tick`, counted from
/// its start.
pub fn tacho_steps(kp_ticks: &[u64], start_tick: u64, end_tick: u64) -> (r: Vec<TachoStep>)
    ensures
        r@ == steps_between(edges_in(kp_ticks@, start_tick, end_tick)),
{
    let edges = kp_ticks_to_offsets(kp_ticks, start_tick, end_tick);
    let mut out: Vec<TachoStep> = Vec::new();
    if edges.len() >= 2 {
        for i in 0..edges.len() - 1
            invariant
                edges@.len() >= 2,
                out@ == steps_between(edges@).take(i as int),
        {
            out.push(TachoStep { start: edges[i], end: edges[i + 1] });
            assert(out@ =~= steps_between(edges@).take(i + 1));
        }
    }
    assert(out@ =~= steps_between(edges@));
    out
}

/// The first place behind `tick`, or the length.
pub open spec fn first_after(kp: Seq<u64>, tick: u64, from: int) -> int
    decreases kp.len() - from,
{
    if from < 0 || from >= kp.len() {
        kp.len() as int
    } else if kp[from] > tick {
        from
    } else {
        first_after(kp, tick, from + 1)
    }
}

/// The first edge behind a tick is behind it, and every edge before that one is not.
pub proof fn law_first_edge_behind(kp: Seq<u64>, tick: u64)
    ensures
        ({
            let k = first_after(kp, tick, 0);
            &&& 0 <= k <= kp.len()
            &&& forall|i: int| 0 <= i < k ==> (#[trigger] kp[i]) <= tick
            &&& k < kp.len() ==> kp[k] > tick
        }),
{
    lemma_first_after(kp, tick, 0);
}

proof fn lemma_first_after(kp: Seq<u64>, tick: u64, from: int)
    requires
        0 <= from <= kp.len(),
    ensures
        ({
            let k = first_after(kp, tick, from);
            &&& from <= k <= kp.len()
            &&& forall|i: int| from <= i < k ==> (#[trigger] kp[i]) <= tick
            &&& k < kp.len() ==> kp[k] > tick
        }),
    decreases kp.len() - from,
{
    if from < kp.len() && kp[from] <= tick {
        lemma_first_after(kp, tick, from + 1);
    }
}

/// Among edges in order, a tick from the first edge up to the last lies in a revolution.
pub proof fn law_cursor_lies_in_a_revolution(kp: Seq<u64>, tick: u64)
    requires
        forall|i: int, j: int| 0 <= i <= j < kp.len() ==> (#[trigger] kp[i]) <= (#[trigger] kp[j]),
    ensures
        0 < first_after(kp, tick, 0) < kp.len() <==> kp.len() > 0 && kp[0] <= tick < kp.last(),
{
    law_first_edge_behind(kp, tick);
    let k = first_after(kp, tick, 0);
    if 0 < k < kp.len() {
        assert(kp[0] <= tick);
        assert(kp[k] <= kp[kp.len() - 1]);
    }
}

/// Where the shaft is at `cursor_tick`: the ticks since the edge before, and the
/// ticks from that edge to the next one. `None` if the cursor does not lie between
/// two edges.
pub fn cursor_revolution(cursor_tick: u64, kp_ticks: &[u64]) -> (r: Option<(u64, u64)>)
    ensures
        ({
            let k = first_after(kp_ticks@, cursor_tick, 0);
            if 0 < k < kp_ticks@.len() {
                r == Some(
                    (
                        (cursor_tick - kp_ticks@[k - 1]) as u64,
                        (kp_ticks@[k] - kp_ticks@[k - 1]) as u64,
                    ),
                )
            } else {
                r is None
            }
        }),
        r matches Some((since, period)) ==> since < period && exists|i: int|
            0 <= i < kp_ticks@.len() - 1 && (#[trigger] kp_ticks@[i]) + since == cursor_tick
                && kp_ticks@[i + 1] == kp_ticks@[i] + period,
{
    proof {
        law_first_edge_behind(kp_ticks@, cursor_tick);
    }
    let mut k: usize = 0;
    while k < kp_ticks.len() && kp_ticks[k] <= cursor_tick
        invariant
            k <= kp_ticks@.len(),
            first_after(kp_ticks@, cursor_tick, 0) == first_after(
                kp_ticks@,
                cursor_tick,
                k as int,
            ),
            k > 0 ==> kp_ticks@[k - 1] <= cursor_tick,
        decreases kp_ticks@.len() - k,
    {
        k = k + 1;
    }
    if k == 0 || k >= kp_ticks.len() {
        None
    } else {
        assert(kp_ticks@[k - 1] + (cursor_tick - kp_ticks@[k - 1]) == cursor_tick);
        Some((cursor_tick - kp_ticks[k - 1], kp_ticks[k] - kp_ticks[k - 1]))
    }
}

// ---------------------------------------------------------------------------
// Levels
// ---------------------------------------------------------------------------

/// The spans of high level that have ended among the first `n` samples, and where
/// the one that has not ended started.
pub open spec fn high_spans(samples: Seq<Sample>, start: u64, n: nat) -> (
    Seq<(u64, u64)>,
    Option<int>,
)
    decreases n,
{
    if n == 0 {
        (seq![], None)
    } else {
        let (spans, open) = high_spans(samples, start, (n - 1) as nat);
        match (samples[n - 1].has_level(), open) {
            (true, None) => (spans, Some(n - 1)),
            (false, Some(k)) => (
                spans.push(
                    ((samples[k].tick - start) as u64, (samples[n - 1].tick - start) as u64),
                ),
                None,
            ),
            (_, _) => (spans, open),
        }
    }
}

/// The spans of high level: from the first sample that is high to the first one
/// that is not, the last one to the end of the data if need be.
pub open spec fn all_high_spans(samples: Seq<Sample>, start: u64) -> Seq<(u64, u64)> {
    let (spans, open) = high_spans(samples, start, samples.len());
    match open {
        Some(k) => spans.push(
            ((samples[k].tick - start) as u64, (samples.last().tick - start) as u64),
        ),
        None => spans,
    }
}

/// Whether a span of high level starts or ends at sample `i`: the level changes there, or
/// it is still high with the last sample.
pub open spec fn bounds_span(samples: Seq<Sample>, i: int) -> bool {
    let before = i > 0 && samples[i - 1].has_level();
    samples[i].has_level() != before || (samples[i].has_level() && i == samples.len() - 1)
}

/// Whether no span of high level starts or ends before `start`.
pub open spec fn spans_start_after(samples: Seq<Sample>, start: u64) -> bool {
    forall|i: int|
        0 <= i < samples.len() && #[trigger] bounds_span(samples, i) ==> samples[i].tick >= start
}

/// Whether no span of high keyphasor level starts or ends before `start_tick`.
pub fn kp_flag_spans_fit(samples: &[Sample], start_tick: u64) -> (r: bool)
    ensures
        r == spans_start_after(samples@, start_tick),
{
    let n: usize = samples.len();
    let mut before: bool = false;
    for i in 0..n
        invariant
            n == samples@.len(),
            before == (i > 0 && samples@[i - 1].has_level()),
            forall|j: int|
                0 <= j < i && #[trigger] bounds_span(samples@, j) ==> samples@[j].tick
                    >= start_tick,
    {
        let s: Sample = samples[i];
        let level: bool = s.keyphasor_level();
        let bounds: bool = level != before || (level && i == n - 1);
        assert(bounds == bounds_span(samples@, i as int));
        if bounds && s.tick < start_tick {
            return false;
        }
        before = level;
    }
    true
}

/// The spans of high keyphasor level, counted from `start_tick`.
pub fn kp_flag_spans(samples: &[Sample], start_tick: u64) -> (r: Vec<(u64, u64)>)
    requires
        spans_start_after(samples@, start_tick),
    ensures
        r@ == all_high_spans(samples@, start_tick),
{
    let mut spans: Vec<(u64, u64)> = Vec::new();
    let mut open: Option<usize> = None;
    for i in 0..samples.len()
        invariant
            spans_start_after(samples@, start_tick),
            open is Some <==> i > 0 && samples@[i - 1].has_level(),
            open matches Some(k) ==> k < i && samples@[k as int].tick >= start_tick,
            high_spans(samples@, start_tick, i as nat) == (
                spans@,
                match open {
                    Some(k) => Some(k as int),
                    None => None,
                },
            ),
    {
        let s: Sample = samples[i];
        let level: bool = s.keyphasor_level();
        assert(bounds_span(samples@, i as int) ==> s.tick >= start_tick);
        match open {
            None => {
                if level {
                    open = Some(i);
                }
            },
            Some(k) => {
                if !level {
                    spans.push((samples[k].tick - start_tick, s.tick - start_tick));
                    open = None;
                }
            },
        }
    }
    if let Some(k) = open {
        let last: u64 = samples[samples.len() - 1].tick;
        assert(bounds_span(samples@, samples@.len() - 1));
        spans.push((samples[k].tick - start_tick, last - start_tick));
    }
    spans
}

/// Whether the samples from `a` up to `b` are high and the ones beside them are not.
pub open spec fn high_run(samples: Seq<Sample>, a: int, b: int) -> bool {
    &&& 0 <= a < b <= samples.len()
    &&& forall|i: int| a <= i < b ==> (#[trigger] samples[i]).has_level()
    &&& a == 0 || !samples[a - 1].has_level()
    &&& b == samples.len() || !samples[b].has_level()
}

/// The spans of high level are the runs of high samples, in order and none left out: each
/// leads from the first sample of its run to the one behind it, or to the last sample of all
/// if the run goes on to the end. The runs are returned.
pub proof fn law_spans_are_runs_of_high_samples(samples: Seq<Sample>, start: u64) -> (runs: Seq<
    (int, int),
>)
    ensures
        runs.len() == all_high_spans(samples, start).len(),
        forall|k: int|
            #![trigger runs[k]]
            0 <= k < runs.len() ==> {
                let last = if runs[k].1 == samples.len() {
                    samples.len() - 1
                } else {
                    runs[k].1
                };
                &&& high_run(samples, runs[k].0, runs[k].1)
                &&& all_high_spans(samples, start)[k] == (
                    (samples[runs[k].0].tick - start) as u64,
                    (samples[last].tick - start) as u64,
                )
            },
        forall|k: int, l: int|
            #![trigger runs[k], runs[l]]
            0 <= k < l < runs.len() ==> runs[k].1 < runs[l].0,
        forall|i: int|
            #![trigger samples[i]]
            0 <= i < samples.len() && samples[i].has_level() ==> exists|k: int|
                0 <= k < runs.len() && (#[trigger] runs[k]).0 <= i < runs[k].1,
{
    let n = samples.len();
    let closed = lemma_high_runs(samples, start, n);
    let (spans, open) = high_spans(samples, start, n);
    match open {
        Some(a) => {
            let runs = closed.push((a, n as int));
            assert forall|i: int|
                #![trigger samples[i]]
                0 <= i < n && samples[i].has_level() implies exists|k: int|
                0 <= k < runs.len() && (#[trigger] runs[k]).0 <= i < runs[k].1 by {
                if i >= a {
                    assert(runs[closed.len() as int].0 <= i);
                } else {
                    let k = choose|k: int|
                        0 <= k < closed.len() && (#[trigger] closed[k]).0 <= i < closed[k].1;
                    assert(runs[k] == closed[k]);
                }
            }
            assert forall|k: int| #![trigger runs[k]] 0 <= k < closed.len() implies runs[k]
                == closed[k] by {}
            runs
        },
        None => closed,
    }
}

proof fn lemma_high_runs(samples: Seq<Sample>, start: u64, n: nat) -> (runs: Seq<(int, int)>)
    requires
        n <= samples.len(),
    ensures
        ({
            let (spans, open) = high_spans(samples, start, n);
            &&& runs.len() == spans.len()
            &&& forall|k: int|
                #![trigger runs[k]]
                0 <= k < runs.len() ==> {
                    &&& high_run(samples, runs[k].0, runs[k].1)
                    &&& runs[k].1 < n
                    &&& spans[k] == (
                        (samples[runs[k].0].tick - start) as u64,
                        (samples[runs[k].1].tick - start) as u64,
                    )
                    &&& open matches Some(a) ==> runs[k].1 < a
                }
            &&& forall|k: int, l: int|
                #![trigger runs[k], runs[l]]
                0 <= k < l < runs.len() ==> runs[k].1 < runs[l].0
            &&& open is None <==> n == 0 || !samples[n - 1].has_level()
            &&& open matches Some(a) ==> {
                &&& 0 <= a < n
                &&& forall|i: int| a <= i < n ==> (#[trigger] samples[i]).has_level()
                &&& a == 0 || !samples[a - 1].has_level()
            }
            &&& forall|i: int|
                #![trigger samples[i]]
                0 <= i < n && samples[i].has_level() ==> (open matches Some(a) && i >= a)
                    || exists|k: int| 0 <= k < runs.len() && (#[trigger] runs[k]).0 <= i < runs[k].1
        }),
    decreases n,
{
    if n == 0 {
        Seq::empty()
    } else {
        let m = (n - 1) as nat;
        let before = lemma_high_runs(samples, start, m);
        let (spans, open) = high_spans(samples, start, m);
        if samples[n - 1].has_level() || open is None {
            before
        } else {
            let a = open->0;
            let runs = before.push((a, n - 1));
            assert(high_run(samples, a, n - 1));
            assert forall|k: int| #![trigger runs[k]] 0 <= k < before.len() implies runs[k]
                == before[k] by {}
            assert forall|i: int|
                #![trigger samples[i]]
                0 <= i < n && samples[i].has_level() implies exists|k: int|
                0 <= k < runs.len() && (#[trigger] runs[k]).0 <= i < runs[k].1 by {
                if i >= a {
                    assert(runs[before.len() as int].0 <= i);
                } else {
                    let k = choose|k: int|
                        0 <= k < before.len() && (#[trigger] before[k]).0 <= i < before[k].1;
                    assert(runs[k] == before[k]);
                }
            }
            runs
        }
    }
}

/// No span starts or ends before a tick if and only if no run of high samples does: neither its
/// first sample, nor the one behind it, or the last of all if the run goes on to the end.
pub proof fn law_spans_fit_with_their_runs(samples: Seq<Sample>, start: u64)
    ensures
        spans_start_after(samples, start) <==> forall|a: int, b: int| #[trigger]
            high_run(samples, a, b) ==> samples[a].tick >= start && samples[if b == samples.len() {
                b - 1
            } else {
                b
            }].tick >= start,
{
    let n = samples.len() as int;
    if spans_start_after(samples, start) {
        assert forall|a: int, b: int| #[trigger] high_run(
            samples,
            a,
            b,
        ) implies samples[a].tick >= start && samples[if b == samples.len() {
            b - 1
        } else {
            b
        }].tick >= start by {
            assert(samples[a].has_level() && samples[b - 1].has_level());
            assert(bounds_span(samples, a));
            if b == n {
                assert(bounds_span(samples, b - 1));
            } else {
                assert(bounds_span(samples, b));
            }
        }
    }
    if forall|a: int, b: int| #[trigger]
        high_run(samples, a, b) ==> samples[a].tick >= start && samples[if b == samples.len() {
            b - 1
        } else {
            b
        }].tick >= start {
        let runs = law_spans_are_runs_of_high_samples(samples, start);
        assert forall|i: int|
            0 <= i < samples.len() && #[trigger] bounds_span(samples, i) implies samples[i].tick
            >= start by {
            let h = if samples[i].has_level() {
                i
            } else {
                i - 1
            };
            assert(samples[h].has_level());
            let k = choose|k: int|
                0 <= k < runs.len() && (#[trigger] runs[k]).0 <= h < runs[k].1;
            let (a, b) = runs[k];
            assert(high_run(samples, a, b));
            if i < b && i > a {
                assert(samples[i - 1].has_level() && samples[i].has_level());
            }
        }
    }
}

/// A stretch of the time axis with one keyphasor level.
#[derive(Debug, Clone, Copy, PartialEq, Eq, Structural)]
pub struct LevelStep {
    pub from: u64,
    pub to: u64,
    pub high: bool,
}

/// The stretches up to the end of the first `n` spans, and where they end.
pub open spec fn level_steps_upto(spans: Seq<(u64, u64)>, n: nat) -> (Seq<LevelStep>, u64)
    decreases n,
{
    if n == 0 {
        (seq![], 0)
    } else {
        let (steps, end) = level_steps_upto(spans, (n - 1) as nat);
        let (t0, t1) = spans[n - 1];
        let gap = if t0 > end {
            steps.push(LevelStep { from: end, to: t0, high: false })
        } else {
            steps
        };
        (gap.push(LevelStep { from: t0, to: t1, high: true }), t1)
    }
}

/// The whole time axis in stretches of one level, `total` being its end.
pub open spec fn level_steps(spans: Seq<(u64, u64)>, total: u64) -> Seq<LevelStep> {
    let (steps, end) = level_steps_upto(spans, spans.len());
    if end < total {
        steps.push(LevelStep { from: end, to: total, high: false })
    } else {
        steps
    }
}

/// The whole time axis in stretches of one level, `total` being its end.
pub fn kp_flag_levels(spans: &[(u64, u64)], total: u64) -> (r: Vec<LevelStep>)
    ensures
        r@ == level_steps(spans@, total),
{
    let mut out: Vec<LevelStep> = Vec::new();
    let mut end: u64 = 0;
    for i in 0..spans.len()
        invariant
            level_steps_upto(spans@, i as nat) == (out@, end),
    {
        let (t0, t1): (u64, u64) = spans[i];
        if t0 > end {
            out.push(LevelStep { from: end, to: t0, high: false });
        }
        out.push(LevelStep { from: t0, to: t1, high: true });
        end = t1;
    }
    if end < total {
        out.push(LevelStep { from: end, to: total, high: false });
    }
    out
}

/// The high stretches of the time axis are the spans, in order and none left out, and the low
/// ones have a length. The places of the spans among the stretches are returned.
pub proof fn law_high_stretches_are_the_spans(spans: Seq<(u64, u64)>, total: u64) -> (at: Seq<int>)
    ensures
        at.len() == spans.len(),
        forall|k: int|
            #![trigger at[k]]
            0 <= k < at.len() ==> 0 <= at[k] < level_steps(spans, total).len() && level_steps(
                spans,
                total,
            )[at[k]] == (LevelStep { from: spans[k].0, to: spans[k].1, high: true }),
        forall|k: int, l: int| #![trigger at[k], at[l]] 0 <= k < l < at.len() ==> at[k] < at[l],
        forall|i: int|
            #![trigger level_steps(spans, total)[i]]
            0 <= i < level_steps(spans, total).len() ==> if level_steps(spans, total)[i].high {
                at.contains(i)
            } else {
                level_steps(spans, total)[i].from < level_steps(spans, total)[i].to
            },
{
    let at = lemma_high_stretches(spans, spans.len());
    let (steps, _) = level_steps_upto(spans, spans.len());
    let all = level_steps(spans, total);
    assert forall|i: int| 0 <= i < steps.len() implies #[trigger] all[i] == steps[i] by {}
    assert forall|k: int| #![trigger at[k]] 0 <= k < at.len() implies all[at[k]] == (LevelStep {
        from: spans[k].0,
        to: spans[k].1,
        high: true,
    }) by {
        assert(all[at[k]] == steps[at[k]]);
    }
    at
}

proof fn lemma_high_stretches(spans: Seq<(u64, u64)>, n: nat) -> (at: Seq<int>)
    requires
        n <= spans.len(),
    ensures
        ({
            let (steps, _) = level_steps_upto(spans, n);
            &&& at.len() == n
            &&& forall|k: int|
                #![trigger at[k]]
                0 <= k < n ==> 0 <= at[k] < steps.len() && steps[at[k]] == (LevelStep {
                    from: spans[k].0,
                    to: spans[k].1,
                    high: true,
                })
            &&& forall|k: int, l: int| #![trigger at[k], at[l]] 0 <= k < l < n ==> at[k] < at[l]
            &&& forall|i: int|
                #![trigger steps[i]]
                0 <= i < steps.len() ==> if steps[i].high {
                    at.contains(i)
                } else {
                    steps[i].from < steps[i].to
                }
        }),
    decreases n,
{
    if n == 0 {
        Seq::empty()
    } else {
        let m = (n - 1) as nat;
        let before = lemma_high_stretches(spans, m);
        let (old_steps, _) = level_steps_upto(spans, m);
        let (steps, _) = level_steps_upto(spans, n);
        let at = before.push(steps.len() - 1);
        assert forall|i: int| 0 <= i < old_steps.len() implies #[trigger] steps[i] == old_steps[i] by {}
        assert forall|k: int| #![trigger at[k]] 0 <= k < m implies 0 <= at[k] < old_steps.len()
            && steps[at[k]] == (LevelStep { from: spans[k].0, to: spans[k].1, high: true }) by {
            assert(at[k] == before[k]);
            assert(steps[before[k]] == old_steps[before[k]]);
        }
        assert forall|k: int, l: int| #![trigger at[k], at[l]] 0 <= k < l < n implies at[k]
            < at[l] by {
            if l < m {
                assert(at[k] == before[k] && at[l] == before[l]);
            }
        }
        assert forall|i: int| #![trigger steps[i]] 0 <= i < steps.len() implies if steps[i].high {
            at.contains(i)
        } else {
            steps[i].from < steps[i].to
        } by {
            if i < old_steps.len() {
                assert(steps[i] == old_steps[i]);
                if steps[i].high {
                    let k = choose|k: int| 0 <= k < before.len() && before[k] == i;
                    assert(at[k] == i);
                }
            } else if i == steps.len() - 1 {
                assert(at[m as int] == i);
            }
        }
        at
    }
}

/// Spans one behind the other.
pub open spec fn spans_in_order(spans: Seq<(u64, u64)>) -> bool {
    &&& forall|i: int| 0 <= i < spans.len() ==> (#[trigger] spans[i]).0 <= spans[i].1
    &&& forall|i: int, j: int|
        0 <= i < j < spans.len() ==> (#[trigger] spans[i]).1 <= (#[trigger] spans[j]).0
}

/// Whether stretches follow one another without a gap from 0 to `end`.
pub open spec fn covers(steps: Seq<LevelStep>, end: u64) -> bool {
    &&& steps.len() == 0 ==> end == 0
    &&& steps.len() > 0 ==> steps[0].from == 0 && steps.last().to == end
    &&& forall|i: int|
        0 < i < steps.len() ==> (#[trigger] steps[i]).from == steps[i - 1].to
}

proof fn lemma_level_steps_cover(spans: Seq<(u64, u64)>, n: nat)
    requires
        spans_in_order(spans),
        n <= spans.len(),
    ensures
        covers(level_steps_upto(spans, n).0, level_steps_upto(spans, n).1),
        level_steps_upto(spans, n).1 == if n == 0 {
            0
        } else {
            spans[n - 1].1
        },
    decreases n,
{
    if n > 0 {
        lemma_level_steps_cover(spans, (n - 1) as nat);
        if n > 1 {
            assert(spans[n - 2].1 <= spans[n - 1].0);
        }
    }
}

/// Spans in order are filled up to the whole time axis without a gap.
pub proof fn law_level_steps_cover(spans: Seq<(u64, u64)>, total: u64)
    requires
        spans_in_order(spans),
        spans.len() > 0 ==> spans.last().1 <= total,
    ensures
        covers(level_steps(spans, total), total),
{
    lemma_level_steps_cover(spans, spans.len());
}

proof fn lemma_high_spans_in_order(samples: Seq<Sample>, start: u64, n: nat)
    requires
        in_time_order(samples),
        samples.len() > 0 ==> samples[0].tick >= start,
        n <= samples.len(),
    ensures
        ({
            let (spans, open) = high_spans(samples, start, n);
            &&& spans_in_order(spans)
            &&& spans.len() > 0 ==> n > 0 && spans.last().1 <= samples[n - 1].tick - start
            &&& open matches Some(k) ==> 0 <= k < n && (spans.len() > 0 ==> spans.last().1
                <= samples[k].tick - start)
        }),
    decreases n,
{
    if n > 0 {
        lemma_high_spans_in_order(samples, start, (n - 1) as nat);
        let (spans, open) = high_spans(samples, start, (n - 1) as nat);
        assert(samples[0].tick <= samples[n - 1].tick);
        if n > 1 {
            assert(samples[n - 2].tick <= samples[n - 1].tick);
        }
        if let Some(k) = open {
            assert(samples[0].tick <= samples[k].tick <= samples[n - 1].tick);
        }
    }
}

/// Of samples in order of time, the spans of high level lie one behind the other
/// and within the data; so the stretches cover the time axis without a gap.
pub proof fn law_levels_of_samples_cover(samples: Seq<Sample>, start: u64)
    requires
        in_time_order(samples),
        samples.len() > 0,
        samples[0].tick == start,
    ensures
        spans_in_order(all_high_spans(samples, start)),
        covers(
            level_steps(all_high_spans(samples, start), (samples.last().tick - start) as u64),
            (samples.last().tick - start) as u64,
        ),
{
    lemma_high_spans_in_order(samples, start, samples.len());
    assert(samples[0].tick <= samples.last().tick);
    let (spans, open) = high_spans(samples, start, samples.len());
    if let Some(k) = open {
        assert(samples[0].tick <= samples[k].tick <= samples.last().tick);
    }
    let total = (samples.last().tick - start) as u64;
    law_level_steps_cover(all_high_spans(samples, start), total);
}

// ---------------------------------------------------------------------------
// Speed axis
// ---------------------------------------------------------------------------

/// The places of the 2nd and the 98th percentile among `n` values in order.
pub fn speed_percentiles(n: usize) -> (r: (usize, usize))
    requires
        n > 0,
    ensures
        r.0 == n / 50,
        r.1 == {
            let hi = 49 * n / 50;
            let hi = if hi > n / 50 {
                hi
            } else {
                n / 50 + 1
            };
            if hi < n {
                hi
            } else {
                n - 1
            }
        },
        r.0 < n,
        r.1 < n,
        50 * r.0 <= n < 50 * r.0 + 50,
        n > 1 ==> r.0 < r.1,
        50 * r.1 <= 49 * n || r.1 == r.0 + 1,
{
    let lo: usize = n / 50;
    let mut hi: usize = n - n / 50 - if n % 50 == 0 {
        0
    } else {
        1
    };
    assert(hi == 49 * n / 50);
    if hi < lo + 1 {
        hi = lo + 1;
    }
    if hi > n - 1 {
        hi = n - 1;
    }
    (lo, hi)
}

/// What the phase of a rotation is taken from.
#[derive(Debug, Clone, Copy, PartialEq, Eq, Structural)]
pub enum PhaseSource {
    /// There are too few edges.
    Nothing,
    /// A smoothing spline through the edges.
    Spline,
    /// A phase-locked loop that follows the edges.
    Loop,
}

/// What the phase of a rotation is taken from.
pub open spec fn source_of_phase(edges: usize, use_spline: bool) -> PhaseSource {
    if edges < 2 {
        PhaseSource::Nothing
    } else if use_spline && edges >= 3 {
        PhaseSource::Spline
    } else {
        PhaseSource::Loop
    }
}

/// There is a phase from one revolution on; a spline is taken only where it is wanted, and
/// then from two revolutions on.
pub proof fn law_source_of_phase(revolutions: usize, use_spline: bool)
    requires
        revolutions < usize::MAX,
    ensures
        ({
            let r = source_of_phase((revolutions + 1) as usize, use_spline);
            &&& r == PhaseSource::Nothing <==> revolutions == 0
            &&& r == PhaseSource::Spline <==> use_spline && revolutions >= 2
            &&& source_of_phase(0, use_spline) == PhaseSource::Nothing
        }),
{
}

/// Chooses what the phase of a rotation is taken from: a spline needs three edges, and
/// nothing can be done with fewer than two.
pub fn phase_source(edges: usize, use_spline: bool) -> (r: PhaseSource)
    ensures
        r == source_of_phase(edges, use_spline),
{
    if edges < 2 {
        PhaseSource::Nothing
    } else if use_spline && edges >= 3 {
        PhaseSource::Spline
    } else {
        PhaseSource::Loop
    }
}

} // verus!
