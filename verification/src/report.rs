//! The decisions of the phase report on recorded files.

use crate::protocol::Sample;
use crate::store::{
    meta_number, meta_ticks, meta_views, parquet_meta_str, parse_kp_ticks, Columns, MetaEntry,
};
use crate::text::{append_decimal, chars_of, decimal, parse_number};
use vstd::prelude::*;

verus! {

/// Ticks from sample to sample in a file that keeps no ticks: 16 MHz at 7500 samples
/// a second.
pub const FALLBACK_TICKS_PER_SAMPLE: u64 = 2133;

/// Fewest edges that a report is made from.
pub const MIN_EDGES: usize = 4;

/// Why there is no report on a file.
#[derive(Debug, Clone, Copy, PartialEq, Eq, Structural)]
pub enum ReportError {
    /// The file has no samples.
    Empty,
    /// The file has too few keyphasor edges, namely so many.
    TooFewEdges(usize),
    /// The file has too few revolutions: so many edges were followed.
    TooFewTurns(usize),
    /// The speed is never steady for long enough.
    NotSteady,
}

/// What a report says in place of its figures.
pub open spec fn error_text(e: ReportError) -> Seq<char> {
    match e {
        ReportError::Empty => "пустой файл"@,
        ReportError::TooFewEdges(n) => "слишком мало KP-событий: "@ + decimal(n as nat),
        ReportError::TooFewTurns(n) => "мало оборотов: "@ + decimal(n as nat),
        ReportError::NotSteady => "стационарный участок не найден"@,
    }
}

impl ReportError {
    /// What a report says in place of its figures.
    pub fn text(&self) -> (r: String)
        ensures
            r@ == error_text(*self),
    {
        match self {
            ReportError::Empty => String::from_str("пустой файл"),
            ReportError::TooFewEdges(n) => {
                let mut out = String::from_str("слишком мало KP-событий: ");
                append_decimal(&mut out, *n as u64);
                out
            },
            ReportError::TooFewTurns(n) => {
                let mut out = String::from_str("мало оборотов: ");
                append_decimal(&mut out, *n as u64);
                out
            },
            ReportError::NotSteady => String::from_str("стационарный участок не найден"),
        }
    }
}

// ---------------------------------------------------------------------------
// What a file holds
// ---------------------------------------------------------------------------

/// The gain that a file was recorded with, 1 if it does not say.
pub fn report_gain(entries: &Vec<MetaEntry>) -> (r: u8)
    ensures
        r == (match meta_number(meta_views(entries@), "pga"@, u8::MAX as nat) {
            Some(v) => v as u8,
            None => 1u8,
        }),
{
    match parquet_meta_str(entries, "pga") {
        Some(v) => {
            let chars = chars_of(v);
            assert(chars@.subrange(0, chars@.len() as int) =~= v@);
            match parse_number(chars.as_slice(), 0, chars.len(), u8::MAX as u64) {
                Some(pga) => pga as u8,
                None => 1,
            }
        },
        None => 1,
    }
}

/// The edge ticks that a file was kept with, nothing if they are no numbers.
pub fn report_kp_ticks(entries: &Vec<MetaEntry>) -> (r: Option<Vec<u64>>)
    ensures
        match r {
            Some(t) => meta_ticks(meta_views(entries@)) == Some(t@),
            None => meta_ticks(meta_views(entries@)) is None,
        },
{
    match parquet_meta_str(entries, "kp_ticks") {
        Some(text) => parse_kp_ticks(text),
        None => {
            let none: Vec<u64> = Vec::new();
            assert(none@ =~= seq![]);
            Some(none)
        },
    }
}

/// The ticks of the samples of a file.
pub open spec fn sample_ticks(c: Columns) -> Seq<u64> {
    match c.ticks {
        Some(t) => t@,
        None => Seq::new(c.ch0@.len(), |i: int| (i * FALLBACK_TICKS_PER_SAMPLE) as u64),
    }
}

/// The ticks of a file are those that it holds; without any they count up from 0 by 2133.
pub proof fn law_ticks_of_a_file(c: Columns, i: int)
    requires
        c.wf(),
        0 <= i < c.ch0@.len(),
        c.ticks is None ==> c.ch0@.len() * 2133 <= u64::MAX,
    ensures
        sample_ticks(c).len() == c.ch0@.len(),
        c.ticks matches Some(t) ==> sample_ticks(c)[i] == t@[i],
        c.ticks is None ==> sample_ticks(c)[0] == 0,
        c.ticks is None && i > 0 ==> sample_ticks(c)[i] == sample_ticks(c)[i - 1] + 2133,
{
}

/// The ticks of the samples of a file.
pub fn report_ticks(columns: &Columns) -> (r: Vec<u64>)
    requires
        columns.ticks is None ==> columns.ch0@.len() * FALLBACK_TICKS_PER_SAMPLE <= u64::MAX,
    ensures
        r@ == sample_ticks(*columns),
{
    let mut out: Vec<u64> = Vec::new();
    match &columns.ticks {
        Some(t) => {
            for i in 0..t.len()
                invariant
                    out@ == t@.take(i as int),
            {
                out.push(t[i]);
                assert(out@ =~= t@.take(i + 1));
            }
            assert(out@ =~= t@);
        },
        None => {
            for i in 0..columns.ch0.len()
                invariant
                    columns.ticks is None,
                    columns.ch0@.len() * FALLBACK_TICKS_PER_SAMPLE <= u64::MAX,
                    out@ == sample_ticks(*columns).take(i as int),
            {
                out.push(i as u64 * FALLBACK_TICKS_PER_SAMPLE);
                assert(out@ =~= sample_ticks(*columns).take(i + 1));
            }
            assert(out@ =~= sample_ticks(*columns));
        },
    }
    out
}

// ---------------------------------------------------------------------------
// Edges
// ---------------------------------------------------------------------------

/// Whether the level bit is set.
pub open spec fn level_on(flags: u8) -> bool {
    (flags / 2) % 2 == 1
}

/// Whether the level of the mark sensor rises with sample `i`.
pub open spec fn rises(flags: Seq<u8>, i: int) -> bool {
    level_on(flags[i]) && (i == 0 || !level_on(flags[i - 1]))
}

/// The ticks of the samples with which the level rises.
pub open spec fn rising_ticks(ticks: Seq<u64>, flags: Seq<u8>) -> Seq<u64>
    decreases flags.len(),
{
    if flags.len() == 0 {
        seq![]
    } else {
        let before = rising_ticks(ticks, flags.drop_last());
        if rises(flags, flags.len() - 1) {
            before.push(ticks[flags.len() - 1])
        } else {
            before
        }
    }
}

/// The level is bit 1 of the flags.
pub proof fn law_level_is_a_bit(flags: u8)
    ensures
        level_on(flags) <==> flags & 2 != 0,
{
    assert((flags & 2 != 0) == ((flags / 2) % 2 == 1)) by (bit_vector);
}

/// There is an edge for every sample that is high behind one that is not, and for the first if
/// it is high, in order and none left out. The places `at` of these samples are returned.
pub proof fn law_every_rise_is_an_edge(ticks: Seq<u64>, flags: Seq<u8>) -> (at: Seq<int>)
    ensures
        at.len() == rising_ticks(ticks, flags).len(),
        forall|k: int|
            #![trigger at[k]]
            0 <= k < at.len() ==> {
                &&& 0 <= at[k] < flags.len()
                &&& level_on(flags[at[k]])
                &&& at[k] == 0 || !level_on(flags[at[k] - 1])
                &&& rising_ticks(ticks, flags)[k] == ticks[at[k]]
            },
        forall|k: int, l: int| #![trigger at[k], at[l]] 0 <= k < l < at.len() ==> at[k] < at[l],
        forall|i: int|
            #![trigger flags[i]]
            0 <= i < flags.len() && level_on(flags[i]) && (i == 0 || !level_on(flags[i - 1]))
                ==> at.contains(i),
    decreases flags.len(),
{
    if flags.len() == 0 {
        Seq::empty()
    } else {
        let front = flags.drop_last();
        let last = flags.len() - 1;
        let before = law_every_rise_is_an_edge(ticks, front);
        let at = if rises(flags, last) {
            before.push(last)
        } else {
            before
        };
        assert forall|k: int| #![trigger at[k]] 0 <= k < at.len() implies {
            &&& 0 <= at[k] < flags.len()
            &&& level_on(flags[at[k]])
            &&& at[k] == 0 || !level_on(flags[at[k] - 1])
            &&& rising_ticks(ticks, flags)[k] == ticks[at[k]]
        } by {
            if k < before.len() {
                assert(at[k] == before[k] && front[before[k]] == flags[before[k]]);
                if before[k] > 0 {
                    assert(front[before[k] - 1] == flags[before[k] - 1]);
                }
            }
        }
        assert forall|i: int|
            #![trigger flags[i]]
            0 <= i < flags.len() && level_on(flags[i]) && (i == 0 || !level_on(
                flags[i - 1],
            )) implies at.contains(i) by {
            if i < last {
                assert(front[i] == flags[i]);
                if i > 0 {
                    assert(front[i - 1] == flags[i - 1]);
                }
                let k = choose|k: int| 0 <= k < before.len() && before[k] == i;
                assert(at[k] == i);
            } else {
                assert(at[before.len() as int] == i);
            }
        }
        at
    }
}

/// Finds the edges of a file that was kept without edge ticks.
pub fn detect_kp_ticks_from_flags(ticks: &Vec<u64>, flags: &Vec<u8>) -> (r: Vec<u64>)
    requires
        flags@.len() <= ticks@.len(),
    ensures
        r@ == rising_ticks(ticks@, flags@),
{
    let mut out: Vec<u64> = Vec::new();
    let mut previous = false;
    for i in 0..flags.len()
        invariant
            flags@.len() <= ticks@.len(),
            out@ == rising_ticks(ticks@, flags@.take(i as int)),
            previous == (i > 0 && level_on(flags@[i - 1])),
    {
        assert(flags@.take(i + 1).drop_last() =~= flags@.take(i as int));
        let bits: u8 = flags[i];
        assert((bits & 0x02 != 0) == ((bits / 2) % 2 == 1)) by (bit_vector);
        let level = bits & Sample::KEYPHASOR_LEVEL_FLAG != 0;
        if level && !previous {
            out.push(ticks[i]);
        }
        previous = level;
    }
    assert(flags@.take(flags@.len() as int) =~= flags@);
    out
}

/// The edges that a report is made from: those that the file was kept with, or else
/// those that its samples show.
pub open spec fn edges_of(kp_ticks: Seq<u64>, ticks: Seq<u64>, flags: Seq<u8>) -> Result<
    Seq<u64>,
    ReportError,
> {
    let edges = if kp_ticks.len() > 0 {
        kp_ticks
    } else {
        rising_ticks(ticks, flags)
    };
    if ticks.len() == 0 {
        Err(ReportError::Empty)
    } else if edges.len() < MIN_EDGES {
        Err(ReportError::TooFewEdges(edges.len() as usize))
    } else {
        Ok(edges)
    }
}

/// A report has four edges at least: those of the file if it has any, and those that its
/// samples show only otherwise. A file without samples is empty, whatever edges it has.
pub proof fn law_edges_of_a_report(kp_ticks: Seq<u64>, ticks: Seq<u64>, flags: Seq<u8>)
    requires
        flags.len() <= usize::MAX,
        kp_ticks.len() <= usize::MAX,
    ensures
        ticks.len() == 0 <==> edges_of(kp_ticks, ticks, flags) == Err::<Seq<u64>, ReportError>(
            ReportError::Empty,
        ),
        edges_of(kp_ticks, ticks, flags) matches Ok(e) ==> e.len() >= 4 && e == if kp_ticks.len()
            > 0 {
            kp_ticks
        } else {
            rising_ticks(ticks, flags)
        },
        edges_of(kp_ticks, ticks, flags) matches Err(e) ==> e == ReportError::Empty || (e
            matches ReportError::TooFewEdges(n) && n < 4 && n == if kp_ticks.len() > 0 {
            kp_ticks.len()
        } else {
            rising_ticks(ticks, flags).len()
        }),
        ticks.len() > 0 && kp_ticks.len() >= 4 ==> edges_of(kp_ticks, ticks, flags) is Ok,
{
}

/// Chooses the edges that a report is made from.
pub fn report_edges(kp_ticks: Vec<u64>, ticks: &Vec<u64>, flags: &Vec<u8>) -> (r: Result<
    Vec<u64>,
    ReportError,
>)
    requires
        flags@.len() == ticks@.len(),
    ensures
        match r {
            Ok(e) => edges_of(kp_ticks@, ticks@, flags@) == Ok::<Seq<u64>, ReportError>(e@),
            Err(e) => edges_of(kp_ticks@, ticks@, flags@) == Err::<Seq<u64>, ReportError>(e),
        },
{
    if ticks.len() == 0 {
        return Err(ReportError::Empty);
    }
    let edges = if kp_ticks.len() > 0 {
        kp_ticks
    } else {
        detect_kp_ticks_from_flags(ticks, flags)
    };
    if edges.len() < MIN_EDGES {
        return Err(ReportError::TooFewEdges(edges.len()));
    }
    Ok(edges)
}

// ---------------------------------------------------------------------------
// The steady part
// ---------------------------------------------------------------------------

/// Run `i` is the first of the longest steady runs, `lens` giving for each revolution
/// how many are steady from it on.
pub open spec fn is_longest_run(lens: Seq<usize>, min_revs: nat, i: int) -> bool {
    &&& 0 <= i < lens.len()
    &&& lens[i] > 0
    &&& lens[i] >= min_revs
    &&& forall|j: int| #![trigger lens[j]] 0 <= j < lens.len() ==> lens[j] <= lens[i]
    &&& forall|j: int| #![trigger lens[j]] 0 <= j < i ==> lens[j] < lens[i]
}

/// No run is long enough.
pub open spec fn no_run(lens: Seq<usize>, min_revs: nat) -> bool {
    forall|j: int| #![trigger lens[j]] 0 <= j < lens.len() ==> lens[j] == 0 || lens[j] < min_revs
}

/// A run that is as long as the longest does not start before it, and there is a longest run
/// if and only if some run is long enough.
pub proof fn law_longest_run(lens: Seq<usize>, min_revs: nat, i: int, j: int)
    requires
        0 <= j < lens.len(),
    ensures
        is_longest_run(lens, min_revs, i) && lens[j] >= lens[i] ==> i <= j && lens[j] == lens[i],
        is_longest_run(lens, min_revs, i) ==> lens[i] >= 1 && lens[i] >= min_revs && !no_run(
            lens,
            min_revs,
        ),
        lens[j] >= 1 && lens[j] >= min_revs ==> !no_run(lens, min_revs) && exists|k: int|
            is_longest_run(lens, min_revs, k),
        !no_run(lens, min_revs) ==> exists|k: int|
            0 <= k < lens.len() && (#[trigger] lens[k]) >= 1 && lens[k] >= min_revs,
{
    if lens[j] >= 1 && lens[j] >= min_revs {
        let k = lemma_first_greatest(lens, lens.len() as int);
        assert(lens[j] <= lens[k]);
        assert(is_longest_run(lens, min_revs, k));
    }
}

proof fn lemma_first_greatest(lens: Seq<usize>, n: int) -> (k: int)
    requires
        0 < n <= lens.len(),
    ensures
        0 <= k < n,
        forall|j: int| #![trigger lens[j]] 0 <= j < n ==> lens[j] <= lens[k],
        forall|j: int| #![trigger lens[j]] 0 <= j < k ==> lens[j] < lens[k],
    decreases n,
{
    if n == 1 {
        0
    } else {
        let k = lemma_first_greatest(lens, n - 1);
        if lens[n - 1] > lens[k] {
            n - 1
        } else {
            k
        }
    }
}

/// Finds the first of the longest steady runs of at least `min_revs` revolutions: its
/// first revolution and the one behind its last.
pub fn find_steady_segment(lens: &Vec<usize>, min_revs: usize) -> (r: Option<(usize, usize)>)
    requires
        forall|i: int| #![trigger lens@[i]] 0 <= i < lens@.len() ==> i + lens@[i] <= lens@.len(),
    ensures
        match r {
            Some((start, end)) => is_longest_run(lens@, min_revs as nat, start as int) && end
                == start + lens@[start as int],
            None => no_run(lens@, min_revs as nat),
        },
{
    let mut best: Option<(usize, usize)> = None;
    let mut best_len: usize = 0;
    for i in 0..lens.len()
        invariant
            forall|i: int|
                #![trigger lens@[i]]
                0 <= i < lens@.len() ==> i + lens@[i] <= lens@.len(),
            match best {
                Some((start, end)) => start < i && end == start + lens@[start as int] && best_len
                    == lens@[start as int] && best_len > 0 && best_len >= min_revs && (forall|
                    j: int,
                |
                    #![trigger lens@[j]]
                    0 <= j < i ==> lens@[j] <= best_len && (j < start ==> lens@[j] < best_len)),
                None => best_len == 0 && no_run(lens@.take(i as int), min_revs as nat),
            },
    {
        let len: usize = lens[i];
        proof {
            assert forall|j: int|
                #![trigger lens@[j]]
                best is None && 0 <= j < i implies lens@[j] == 0 || lens@[j] < min_revs by {
                assert(lens@.take(i as int)[j] == lens@[j]);
            }
            assert(lens@[i as int] == len);
        }
        if len >= min_revs && len > best_len {
            best_len = len;
            best = Some((i, i + len));
        }
    }
    assert(lens@.take(lens@.len() as int) =~= lens@);
    best
}

/// The steady part that a report is made from: that of the strict runs, or else that
/// of the relaxed ones, half as many revolutions being enough then.
pub fn report_segment(
    followed: usize,
    strict: &Vec<usize>,
    relaxed: &Vec<usize>,
    min_revs: usize,
) -> (r: Result<(usize, usize), ReportError>)
    requires
        forall|i: int|
            #![trigger strict@[i]]
            0 <= i < strict@.len() ==> i + strict@[i] <= strict@.len(),
        forall|i: int|
            #![trigger relaxed@[i]]
            0 <= i < relaxed@.len() ==> i + relaxed@[i] <= relaxed@.len(),
    ensures
        match r {
            Err(ReportError::TooFewTurns(n)) => n == followed && followed <= min_revs,
            Err(e) => followed > min_revs && e == ReportError::NotSteady && no_run(
                strict@,
                min_revs as nat,
            ) && no_run(relaxed@, (min_revs / 2) as nat),
            Ok((start, end)) => followed > min_revs && if no_run(strict@, min_revs as nat) {
                is_longest_run(relaxed@, (min_revs / 2) as nat, start as int) && end == start
                    + relaxed@[start as int]
            } else {
                is_longest_run(strict@, min_revs as nat, start as int) && end == start
                    + strict@[start as int]
            },
        },
{
    if followed <= min_revs {
        return Err(ReportError::TooFewTurns(followed));
    }
    match find_steady_segment(strict, min_revs) {
        Some(s) => {
            assert(strict@[s.0 as int] > 0);
            Ok(s)
        },
        None => match find_steady_segment(relaxed, min_revs / 2) {
            Some(s) => Ok(s),
            None => Err(ReportError::NotSteady),
        },
    }
}

} // verus!
