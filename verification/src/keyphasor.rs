//! Which samples belong to which revolution.

use crate::protocol::Sample;
use crate::types::{SampleCount, SampleIndex, SampleRateHz};
use vstd::prelude::*;
use vstd::std_specs::convert::IntoSpec;

verus! {

// ---------------------------------------------------------------------------
// Edges in a block
// ---------------------------------------------------------------------------

/// The place of the first edge within the block of `len` samples from `start`,
/// counted from the start of the block.
pub open spec fn first_in_block(start: usize, len: usize, kp: Seq<SampleIndex>) -> Option<
    SampleIndex,
>
    decreases kp.len(),
{
    if kp.len() == 0 {
        None
    } else if start <= kp[0].0 < start + len {
        Some(SampleIndex((kp[0].0 - start) as usize))
    } else {
        first_in_block(start, len, kp.skip(1))
    }
}

/// Places given in a type that converts to [`SampleIndex`].
pub open spec fn as_indices<K: Into<SampleIndex>>(kp: Seq<K>) -> Seq<SampleIndex> {
    kp.map_values(|k: K| IntoSpec::<SampleIndex>::into_spec(k))
}

fn find_in_block<K>(start: usize, len: usize, kp_indices: &[K]) -> (r: Option<SampleIndex>) where
    K: Copy + Into<SampleIndex>,

    requires
        <K as IntoSpec<SampleIndex>>::obeys_into_spec(),
        start + len <= usize::MAX,
    ensures
        r == first_in_block(start, len, as_indices(kp_indices@)),
{
    let ghost kp = as_indices(kp_indices@);
    assert(kp.skip(0) =~= kp);
    for i in 0..kp_indices.len()
        invariant
            <K as IntoSpec<SampleIndex>>::obeys_into_spec(),
            start + len <= usize::MAX,
            kp == as_indices(kp_indices@),
            first_in_block(start, len, kp) == first_in_block(start, len, kp.skip(i as int)),
    {
        let idx: SampleIndex = kp_indices[i].into();
        assert(kp.skip(i as int)[0] == idx);
        assert(kp.skip(i as int).skip(1) =~= kp.skip(i + 1));
        if idx.0 >= start && idx.0 < start + len {
            return Some(SampleIndex(idx.0 - start));
        }
    }
    None
}

/// The first edge in a block of samples.
///
/// `block_start` is the place of the block in the stream, `block_len` its length,
/// `kp_indices` the places of the edges in the stream. Returns the place of the
/// edge within the block.
pub fn first_kp_in_block<K, S, N>(
    block_start: S,
    block_len: N,
    kp_indices: &[K],
) -> (r: Option<SampleIndex>) where
    K: Copy + Into<SampleIndex>,
    S: Into<SampleIndex>,
    N: Into<SampleCount>,

    requires
        <K as IntoSpec<SampleIndex>>::obeys_into_spec(),
        <S as IntoSpec<SampleIndex>>::obeys_into_spec(),
        <N as IntoSpec<SampleCount>>::obeys_into_spec(),
        IntoSpec::<SampleIndex>::into_spec(block_start).0 + IntoSpec::<SampleCount>::into_spec(
            block_len,
        ).0 <= usize::MAX,
    ensures
        r == first_in_block(
            IntoSpec::<SampleIndex>::into_spec(block_start).0,
            IntoSpec::<SampleCount>::into_spec(block_len).0,
            as_indices(kp_indices@),
        ),
{
    let start: SampleIndex = block_start.into();
    let len: SampleCount = block_len.into();
    find_in_block(start.0, len.0, kp_indices)
}

/// The edge that is found lies in the block, and no earlier one does.
pub proof fn law_first_in_block(start: usize, len: usize, kp: Seq<SampleIndex>)
    ensures
        first_in_block(start, len, kp) is None <==> forall|i: int|
            0 <= i < kp.len() ==> !(start <= (#[trigger] kp[i]).0 < start + len),
        first_in_block(start, len, kp) matches Some(r) ==> exists|i: int|
            0 <= i < kp.len() && #[trigger] kp[i].0 == start + r.0 && r.0 < len && forall|j: int|
                0 <= j < i ==> !(start <= (#[trigger] kp[j]).0 < start + len),
    decreases kp.len(),
{
    if kp.len() > 0 && !(start <= kp[0].0 < start + len) {
        let rest = kp.skip(1);
        law_first_in_block(start, len, rest);
        assert forall|i: int| 0 < i < kp.len() implies kp[i] == rest[i - 1] by {}
        if let Some(r) = first_in_block(start, len, rest) {
            let i = choose|i: int|
                0 <= i < rest.len() && #[trigger] rest[i].0 == start + r.0 && r.0 < len && forall|
                    j: int,
                | 0 <= j < i ==> !(start <= (#[trigger] rest[j]).0 < start + len);
            assert(kp[i + 1].0 == start + r.0);
            assert forall|j: int| 0 <= j < i + 1 implies !(start <= (#[trigger] kp[j]).0 < start
                + len) by {
                if j > 0 {
                    assert(kp[j] == rest[j - 1]);
                }
            }
        } else {
            assert forall|i: int| 0 <= i < kp.len() implies !(start <= (#[trigger] kp[i]).0 < start
                + len) by {
                if i > 0 {
                    assert(kp[i] == rest[i - 1]);
                }
            }
        }
    } else if kp.len() > 0 {
        let r = first_in_block(start, len, kp).unwrap();
        assert(kp[0].0 == start + r.0);
    }
}

// ---------------------------------------------------------------------------
// Edges marked in the samples
// ---------------------------------------------------------------------------

/// The places of the samples with the edge bit, in order.
pub open spec fn edge_places(samples: Seq<Sample>) -> Seq<SampleIndex>
    decreases samples.len(),
{
    if samples.len() == 0 {
        seq![]
    } else {
        let before = edge_places(samples.drop_last());
        if samples.last().has_edge() {
            before.push(SampleIndex((samples.len() - 1) as usize))
        } else {
            before
        }
    }
}

/// The places of the samples with the edge bit.
pub fn keyphasor_indices(samples: &[Sample]) -> (r: Vec<SampleIndex>)
    ensures
        r@ == edge_places(samples@),
{
    let mut out: Vec<SampleIndex> = Vec::new();
    for i in 0..samples.len()
        invariant
            out@ == edge_places(samples@.take(i as int)),
    {
        assert(samples@.take(i + 1).drop_last() =~= samples@.take(i as int));
        if samples[i].keyphasor() {
            out.push(SampleIndex(i));
        }
    }
    assert(samples@.take(samples@.len() as int) =~= samples@);
    out
}

/// What the speed and phase of a block are taken from.
#[derive(Debug, Clone, Copy, PartialEq, Eq, Structural)]
pub enum BlockSource {
    /// Averaging over revolutions.
    Tsa,
    /// One revolution between two edges.
    Keyphasor,
    /// The strongest line of the spectrum.
    Spectrum,
}

/// Samples that a block has at least to be analysed.
pub const MIN_BLOCK: usize = 64;

/// What a block is analysed by, given how many edges it has; `None` if it is too
/// short or has no rate.
pub open spec fn source_of_block(sample_rate: SampleRateHz, samples: usize, edges: usize) -> Option<
    BlockSource,
> {
    if sample_rate.0 == 0 || samples < MIN_BLOCK {
        None
    } else if edges >= 3 {
        Some(BlockSource::Tsa)
    } else if edges == 2 {
        Some(BlockSource::Keyphasor)
    } else {
        Some(BlockSource::Spectrum)
    }
}

/// A block of 64 samples and a rate is analysed, and no other; the average over revolutions
/// takes two revolutions, the edges one, and the spectrum is for what has none.
pub proof fn law_source_of_block(sample_rate: SampleRateHz, samples: usize, revolutions: usize)
    requires
        revolutions < usize::MAX,
    ensures
        ({
            let r = source_of_block(sample_rate, samples, (revolutions + 1) as usize);
            &&& r is Some <==> sample_rate.0 > 0 && samples >= 64
            &&& r == Some(BlockSource::Tsa) ==> revolutions >= 2
            &&& r == Some(BlockSource::Keyphasor) ==> revolutions == 1
            &&& r == Some(BlockSource::Spectrum) ==> revolutions == 0
            &&& r is Some ==> source_of_block(sample_rate, samples, 0) == Some(
                BlockSource::Spectrum,
            )
        }),
{
}

/// What a block is analysed by, given how many edges it has; `None` if it is too
/// short or has no rate.
pub fn block_source(sample_rate: SampleRateHz, samples: usize, edges: usize) -> (r: Option<
    BlockSource,
>)
    ensures
        r == source_of_block(sample_rate, samples, edges),
{
    if sample_rate.0 < 1 || samples < MIN_BLOCK {
        None
    } else if edges >= 3 {
        Some(BlockSource::Tsa)
    } else if edges >= 2 {
        Some(BlockSource::Keyphasor)
    } else {
        Some(BlockSource::Spectrum)
    }
}

/// The revolutions among `n` samples that lie between neighbouring edges: of more than
/// one sample, and wholly there.
pub open spec fn whole_revolutions(edges: Seq<SampleIndex>, n: int) -> Seq<(usize, usize)>
    decreases edges.len(),
{
    if edges.len() < 2 {
        seq![]
    } else {
        let before = whole_revolutions(edges.drop_last(), n);
        let start = edges[edges.len() - 2].0;
        let end = edges.last().0;
        if start + 1 < end && end <= n {
            before.push((start, end))
        } else {
            before
        }
    }
}

/// Finds the revolutions that a synchronous average is made of.
pub fn tsa_revolutions(edges: &Vec<SampleIndex>, samples: usize) -> (r: Vec<(usize, usize)>)
    ensures
        r@ == whole_revolutions(edges@, samples as int),
{
    let mut out: Vec<(usize, usize)> = Vec::new();
    let n: usize = edges.len();
    let mut i: usize = 1;
    while i < n
        invariant
            n == edges@.len(),
            1 <= i,
            i <= n || n == 0,
            out@ == whole_revolutions(edges@.take(if i <= n {
                i as int
            } else {
                n as int
            }), samples as int),
        decreases n - i,
    {
        assert(edges@.take(i + 1).drop_last() =~= edges@.take(i as int));
        let start: usize = edges[i - 1].0;
        let end: usize = edges[i].0;
        if end > start && end - start > 1 && end <= samples {
            out.push((start, end));
        }
        i = i + 1;
    }
    assert(edges@.take(n as int) =~= edges@);
    out
}

/// Every revolution between neighbouring edges that has more than one sample and lies
/// wholly among the samples is averaged, once and in the order of the edges, and nothing
/// else is: the places `at` of their ends among the edges count up, and no such revolution
/// is left out between two of them.
pub proof fn law_every_whole_revolution_is_averaged(edges: Seq<SampleIndex>, n: int) -> (at: Seq<
    int,
>)
    ensures
        at.len() == whole_revolutions(edges, n).len(),
        forall|k: int|
            #![trigger at[k]]
            0 <= k < at.len() ==> 1 <= at[k] < edges.len() && whole_revolutions(edges, n)[k] == (
                edges[at[k] - 1].0,
                edges[at[k]].0,
            ) && edges[at[k] - 1].0 + 1 < edges[at[k]].0 && edges[at[k]].0 <= n,
        forall|k: int, l: int|
            #![trigger at[k], at[l]]
            0 <= k < l < at.len() ==> at[k] < at[l],
        forall|i: int|
            #![trigger edges[i]]
            1 <= i < edges.len() && edges[i - 1].0 + 1 < edges[i].0 && edges[i].0 <= n
                ==> at.contains(i),
    decreases edges.len(),
{
    if edges.len() < 2 {
        Seq::empty()
    } else {
        let front = edges.drop_last();
        let last = edges.len() - 1;
        let before = law_every_whole_revolution_is_averaged(front, n);
        assert forall|i: int| 0 <= i < front.len() implies front[i] == edges[i] by {}
        let at = if edges[last - 1].0 + 1 < edges[last].0 && edges[last].0 <= n {
            before.push(last)
        } else {
            before
        };
        assert forall|k: int|
            #![trigger at[k]]
            0 <= k < at.len() implies 1 <= at[k] < edges.len() && whole_revolutions(edges, n)[k]
            == (edges[at[k] - 1].0, edges[at[k]].0) && edges[at[k] - 1].0 + 1 < edges[at[k]].0
            && edges[at[k]].0 <= n by {
            if k < before.len() {
                assert(at[k] == before[k]);
            }
        }
        assert forall|i: int|
            #![trigger edges[i]]
            1 <= i < edges.len() && edges[i - 1].0 + 1 < edges[i].0 && edges[i].0
                <= n implies at.contains(i) by {
            if i < last {
                assert(front[i] == edges[i] && front[i - 1] == edges[i - 1]);
                let k = choose|k: int| 0 <= k < before.len() && before[k] == i;
                assert(at[k] == i);
            } else {
                assert(at[before.len() as int] == i);
            }
        }
        at
    }
}

/// The places of the edges are those of the samples with the edge bit, each once and in
/// order.
pub proof fn law_edge_places(samples: Seq<Sample>)
    requires
        samples.len() <= usize::MAX,
    ensures
        forall|i: int|
            #![trigger samples[i]]
            0 <= i < samples.len() ==> (edge_places(samples).contains(SampleIndex(i as usize))
                <==> samples[i].flags & 1 != 0),
        forall|k: int|
            #![trigger edge_places(samples)[k]]
            0 <= k < edge_places(samples).len() ==> edge_places(samples)[k].0 < samples.len(),
        forall|k: int, l: int|
            #![trigger edge_places(samples)[k], edge_places(samples)[l]]
            0 <= k < l < edge_places(samples).len() ==> edge_places(samples)[k].0
                < edge_places(samples)[l].0,
    decreases samples.len(),
{
    if samples.len() > 0 {
        let front = samples.drop_last();
        let last = samples.len() - 1;
        law_edge_places(front);
        let before = edge_places(front);
        let all = edge_places(samples);
        assert forall|i: int|
            #![trigger samples[i]]
            0 <= i < samples.len() implies (all.contains(SampleIndex(i as usize)) <==> samples[i].flags
            & 1 != 0) by {
            let flags = samples[i].flags;
            assert((flags & 1 != 0) == (flags % 2 == 1)) by (bit_vector);
            if i < last {
                assert(front[i] == samples[i]);
                if before.contains(SampleIndex(i as usize)) {
                    let k = choose|k: int|
                        0 <= k < before.len() && before[k] == SampleIndex(i as usize);
                    assert(all[k] == before[k]);
                }
                if all.contains(SampleIndex(i as usize)) {
                    let k = choose|k: int| 0 <= k < all.len() && all[k] == SampleIndex(i as usize);
                    assert(before[k] == all[k]);
                }
            } else {
                if samples[i].has_edge() {
                    assert(all[before.len() as int] == SampleIndex(i as usize));
                } else {
                    assert forall|k: int| 0 <= k < all.len() implies all[k] != SampleIndex(
                        i as usize,
                    ) by {
                        assert(before[k].0 < front.len());
                    }
                }
            }
        }
    }
}

// ---------------------------------------------------------------------------
// Samples of revolutions
// ---------------------------------------------------------------------------

/// The first place from `from` on whose sample is not before `tick`.
pub open spec fn place_at(samples: Seq<Sample>, from: int, tick: u64) -> int
    decreases samples.len() - from,
{
    if from < 0 || from >= samples.len() {
        samples.len() as int
    } else if samples[from].tick >= tick {
        from
    } else {
        place_at(samples, from + 1, tick)
    }
}

/// Where each revolution starts and ends among the samples, and which one it is:
/// revolution `k` is from `bounds[k]` up to `bounds[k + 1]`. Revolutions without
/// a sample are left out. The search goes on from where the one before started.
pub open spec fn revolutions(samples: Seq<Sample>, bounds: Seq<u64>, n: nat) -> (
    Seq<(usize, usize, usize)>,
    int,
)
    decreases n,
{
    if n == 0 {
        (seq![], 0)
    } else {
        let (before, at) = revolutions(samples, bounds, (n - 1) as nat);
        let from = place_at(samples, at, bounds[n - 1]);
        let to = place_at(samples, from, bounds[n as int]);
        if from < to {
            (before.push(((n - 1) as usize, from as usize, to as usize)), from)
        } else {
            (before, from)
        }
    }
}

fn find_place(samples: &[Sample], from: usize, tick: u64) -> (r: usize)
    requires
        from <= samples@.len(),
    ensures
        r == place_at(samples@, from as int, tick),
        from <= r <= samples@.len(),
{
    let mut i: usize = from;
    while i < samples.len() && samples[i].tick < tick
        invariant
            from <= i <= samples@.len(),
            place_at(samples@, from as int, tick) == place_at(samples@, i as int, tick),
        decreases samples@.len() - i,
    {
        i = i + 1;
    }
    i
}

/// Where each revolution starts and ends among the samples: the number of the
/// revolution, the place of its first sample, and the place behind its last one.
pub fn revolution_ranges(samples: &[Sample], bounds: &[u64]) -> (r: Vec<(usize, usize, usize)>)
    ensures
        r@ == if bounds@.len() < 2 {
            seq![]
        } else {
            revolutions(samples@, bounds@, (bounds@.len() - 1) as nat).0
        },
{
    let mut out: Vec<(usize, usize, usize)> = Vec::new();
    if bounds.len() < 2 {
        return out;
    }
    let n: usize = bounds.len() - 1;
    let mut at: usize = 0;
    for k in 0..n
        invariant
            n + 1 == bounds@.len(),
            at <= samples@.len(),
            revolutions(samples@, bounds@, k as nat) == (out@, at as int),
    {
        let from: usize = find_place(samples, at, bounds[k]);
        let to: usize = find_place(samples, from, bounds[k + 1]);
        if from < to {
            out.push((k, from, to));
        }
        at = from;
    }
    out
}

/// Samples in order of time.
pub open spec fn in_time_order(samples: Seq<Sample>) -> bool {
    forall|i: int, j: int| 0 <= i <= j < samples.len() ==> samples[i].tick <= samples[j].tick
}

proof fn lemma_place_at(samples: Seq<Sample>, from: int, tick: u64)
    requires
        0 <= from <= samples.len(),
        in_time_order(samples),
    ensures
        from <= place_at(samples, from, tick) <= samples.len(),
        forall|i: int| from <= i < samples.len() ==> (#[trigger] samples[i].tick >= tick <==> i
            >= place_at(samples, from, tick)),
    decreases samples.len() - from,
{
    if from < samples.len() && samples[from].tick < tick {
        lemma_place_at(samples, from + 1, tick);
    }
}

/// Bounds in order.
pub open spec fn in_order(bounds: Seq<u64>) -> bool {
    forall|i: int, j: int| 0 <= i <= j < bounds.len() ==> bounds[i] <= bounds[j]
}

/// Whether a sample lies in revolution `k`.
pub open spec fn in_revolution(s: Sample, bounds: Seq<u64>, k: int) -> bool {
    bounds[k] <= s.tick < bounds[k + 1]
}

/// Of samples and bounds in order, every revolution gets exactly the samples from
/// its start up to its end.
pub proof fn law_revolution_samples(samples: Seq<Sample>, bounds: Seq<u64>, n: nat)
    requires
        in_time_order(samples),
        in_order(bounds),
        n < bounds.len(),
        bounds.len() <= usize::MAX,
        samples.len() <= usize::MAX,
    ensures
        ({
            let list = revolutions(samples, bounds, n).0;
            &&& forall|e: int, i: int|
                #![trigger list[e], samples[i]]
                0 <= e < list.len() && 0 <= i < samples.len() ==> (list[e].1 <= i < list[e].2
                    <==> in_revolution(samples[i], bounds, list[e].0 as int))
            &&& forall|i: int, k: int|
                #![trigger in_revolution(samples[i], bounds, k)]
                0 <= i < samples.len() && 0 <= k < n && in_revolution(samples[i], bounds, k)
                    ==> exists|e: int| 0 <= e < list.len() && #[trigger] list[e].0 == k
        }),
{
    lemma_revolutions(samples, bounds, n);
}

/// The revolutions come in order, each once, and none of them without a sample.
pub proof fn law_revolutions_in_order(samples: Seq<Sample>, bounds: Seq<u64>, n: nat)
    requires
        n < bounds.len(),
        bounds.len() <= usize::MAX,
        samples.len() <= usize::MAX,
    ensures
        ({
            let list = revolutions(samples, bounds, n).0;
            &&& forall|e: int|
                #![trigger list[e]]
                0 <= e < list.len() ==> list[e].0 < n && list[e].1 < list[e].2 <= samples.len()
            &&& forall|e: int, f: int|
                #![trigger list[e], list[f]]
                0 <= e < f < list.len() ==> list[e].0 < list[f].0
        }),
        0 <= revolutions(samples, bounds, n).1 <= samples.len(),
    decreases n,
{
    if n > 0 {
        law_revolutions_in_order(samples, bounds, (n - 1) as nat);
        let (before, at) = revolutions(samples, bounds, (n - 1) as nat);
        let list = revolutions(samples, bounds, n).0;
        let from = place_at(samples, at, bounds[n - 1]);
        lemma_place_within(samples, at, bounds[n - 1]);
        lemma_place_within(samples, from, bounds[n as int]);
        assert(forall|e: int| 0 <= e < before.len() ==> #[trigger] list[e] == before[e]);
    }
}

proof fn lemma_place_within(samples: Seq<Sample>, from: int, tick: u64)
    requires
        0 <= from <= samples.len(),
    ensures
        from <= place_at(samples, from, tick) <= samples.len(),
    decreases samples.len() - from,
{
    if from < samples.len() && samples[from].tick < tick {
        lemma_place_within(samples, from + 1, tick);
    }
}

proof fn lemma_revolutions(samples: Seq<Sample>, bounds: Seq<u64>, n: nat)
    requires
        in_time_order(samples),
        in_order(bounds),
        n < bounds.len(),
        bounds.len() <= usize::MAX,
        samples.len() <= usize::MAX,
    ensures
        0 <= revolutions(samples, bounds, n).1 <= samples.len(),
        n > 0 ==> forall|i: int|
            0 <= i < revolutions(samples, bounds, n).1 ==> (#[trigger] samples[i]).tick < bounds[n
                - 1],
        n == 0 ==> revolutions(samples, bounds, n).1 == 0,
        ({
            let list = revolutions(samples, bounds, n).0;
            &&& forall|e: int, i: int|
                #![trigger list[e], samples[i]]
                0 <= e < list.len() && 0 <= i < samples.len() ==> (list[e].1 <= i < list[e].2
                    <==> in_revolution(samples[i], bounds, list[e].0 as int))
            &&& forall|i: int, k: int|
                #![trigger in_revolution(samples[i], bounds, k)]
                0 <= i < samples.len() && 0 <= k < n && in_revolution(samples[i], bounds, k)
                    ==> exists|e: int| 0 <= e < list.len() && #[trigger] list[e].0 == k
        }),
    decreases n,
{
    if n > 0 {
        lemma_revolutions(samples, bounds, (n - 1) as nat);
        let (before, at) = revolutions(samples, bounds, (n - 1) as nat);
        let list = revolutions(samples, bounds, n).0;
        let from = place_at(samples, at, bounds[n - 1]);
        let to = place_at(samples, from, bounds[n as int]);
        lemma_place_at(samples, at, bounds[n - 1]);
        lemma_place_at(samples, from, bounds[n as int]);
        assert forall|i: int| 0 <= i < from implies (#[trigger] samples[i]).tick < bounds[n - 1] by {
            if i < at {
                assert(bounds[n - 2] <= bounds[n - 1]);
            }
        }
        assert forall|i: int| 0 <= i < samples.len() implies (from <= i < to <==> in_revolution(
            #[trigger] samples[i],
            bounds,
            n - 1,
        )) by {}
        assert forall|i: int, k: int|
            #![trigger in_revolution(samples[i], bounds, k)]
            0 <= i < samples.len() && 0 <= k < n && in_revolution(
                samples[i],
                bounds,
                k,
            ) implies exists|e: int| 0 <= e < list.len() && #[trigger] list[e].0 == k by {
            if k == n - 1 {
                assert(list[list.len() - 1].0 == k);
            } else {
                let e = choose|e: int| 0 <= e < before.len() && #[trigger] before[e].0 == k;
                assert(list[e] == before[e]);
            }
        }
    }
}

// ---------------------------------------------------------------------------
// Averaging
// ---------------------------------------------------------------------------

/// Whether point `j` is among those from `from` up to `to`.
pub open spec fn in_window(from: int, to: int, j: int) -> bool {
    from <= j < to
}

/// The points that are averaged for point `i` of `n`: `window` of them, as even on
/// both sides as can be, cut off at the ends. Returns the first one and the one
/// behind the last.
pub fn smooth_window(i: usize, window: usize, n: usize) -> (r: (usize, usize))
    requires
        i < n,
        i + window <= usize::MAX,
        window >= 1,
    ensures
        r.0 == if i >= window / 2 {
            i - window / 2
        } else {
            0
        },
        r.1 == if i + window - window / 2 <= n {
            i + window - window / 2
        } else {
            n as int
        },
        r.0 <= i < r.1 <= n,
        r.1 - r.0 <= window,
        forall|j: int|
            #![trigger in_window(r.0 as int, r.1 as int, j)]
            in_window(r.0 as int, r.1 as int, j) <==> 0 <= j < n && i - window / 2 <= j && j - i
                < window - window / 2,
{
    let half: usize = window / 2;
    let from: usize = i.saturating_sub(half);
    let end: usize = i + window - half;
    let to: usize = if end <= n {
        end
    } else {
        n
    };
    (from, to)
}

/// Points on either side of the cursor in the polar trail.
pub const POLAR_TRAIL_HALF: usize = 24;

/// The points of the polar trail around point `i` of `n`.
pub fn trail_window(i: usize, n: usize) -> (r: (usize, usize))
    requires
        i < n,
        n + POLAR_TRAIL_HALF + 1 <= usize::MAX,
    ensures
        r.0 == if i >= POLAR_TRAIL_HALF {
            i - POLAR_TRAIL_HALF
        } else {
            0
        },
        r.1 == if i + POLAR_TRAIL_HALF + 1 <= n {
            i + POLAR_TRAIL_HALF + 1
        } else {
            n as int
        },
        r.0 <= i < r.1 <= n,
        forall|j: int|
            #![trigger in_window(r.0 as int, r.1 as int, j)]
            in_window(r.0 as int, r.1 as int, j) <==> 0 <= j < n && -24 <= j - i <= 24,
{
    let from: usize = i.saturating_sub(POLAR_TRAIL_HALF);
    let end: usize = i + POLAR_TRAIL_HALF + 1;
    let to: usize = if end <= n {
        end
    } else {
        n
    };
    (from, to)
}

} // verus!
