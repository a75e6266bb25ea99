//! Choices among measured values.
//!
//! The values are `f64` numbers given by their bits; what is chosen is a place among
//! them. Only their order counts.

use crate::balance::{is_nan, is_number, SIGN_BIT};
use vstd::prelude::*;

verus! {

/// The place of a number among all numbers: the bits count up from zero on either side
/// of it.
pub open spec fn rank(bits: u64) -> int {
    if bits >= SIGN_BIT {
        SIGN_BIT - bits
    } else {
        bits as int
    }
}

/// Numbers above zero are in the order of their bits and those below zero in the opposite one;
/// every number below zero comes before every one above; both zeros have one place; and the
/// other sign mirrors the place at zero.
pub proof fn law_ranks_are_in_order(a: u64, b: u64)
    ensures
        ({
            let sign = 0x8000_0000_0000_0000u64;
            &&& a < sign && b < sign ==> (rank(a) < rank(b) <==> a < b)
            &&& a >= sign && b >= sign ==> (rank(a) < rank(b) <==> a > b)
            &&& a > sign && b < sign ==> rank(a) < rank(b)
            &&& a >= sign && 0 < b < sign ==> rank(a) < rank(b)
            &&& rank(0) == rank(sign)
            &&& a < sign ==> rank((a + sign) as u64) == -rank(a)
            &&& rank(a) == rank(b) <==> a == b || (a == 0 && b == sign) || (a == sign && b == 0)
        }),
{
}

/// Whether there are only numbers.
pub open spec fn all_numbers(keys: Seq<u64>) -> bool {
    forall|i: int| #![trigger keys[i]] 0 <= i < keys.len() ==> !is_nan(keys[i])
}

fn less(a: u64, b: u64) -> (r: bool)
    ensures
        r == (rank(a) < rank(b)),
{
    if a >= SIGN_BIT {
        if b >= SIGN_BIT {
            a > b
        } else {
            a > SIGN_BIT || b > 0
        }
    } else {
        b < SIGN_BIT && a < b
    }
}

/// Whether two are the same number: zero is the same with either sign, and what is no
/// number is not the same as anything.
pub open spec fn same_number(a: u64, b: u64) -> bool {
    !is_nan(a) && !is_nan(b) && rank(a) == rank(b)
}

/// A number is the same as itself and what is no number is not; being the same goes both ways
/// and on; apart from the zeros only the same bits are the same number.
pub proof fn law_same_numbers(a: u64, b: u64, c: u64)
    ensures
        same_number(a, a) <==> !is_nan(a),
        same_number(a, b) <==> same_number(b, a),
        same_number(a, b) && same_number(b, c) ==> same_number(a, c),
        same_number(a, b) && a != b ==> (a == 0 || a == 0x8000_0000_0000_0000) && (b == 0 || b
            == 0x8000_0000_0000_0000),
{
}

/// Whether two are the same number.
pub fn equal_numbers(a: u64, b: u64) -> (r: bool)
    ensures
        r == same_number(a, b),
{
    is_number(a) && is_number(b) && !less(a, b) && !less(b, a)
}

// ---------------------------------------------------------------------------
// Order
// ---------------------------------------------------------------------------

/// Whether place `a` comes before place `b`: by the numbers there, and where these are
/// the same as they come.
pub open spec fn comes_before(keys: Seq<u64>, a: usize, b: usize) -> bool {
    rank(keys[a as int]) < rank(keys[b as int]) || (rank(keys[a as int]) == rank(keys[b as int])
        && a < b)
}

/// The places of numbers in their order.
pub open spec fn is_order(r: Seq<usize>, keys: Seq<u64>) -> bool {
    &&& r.len() == keys.len()
    &&& forall|i: int| #![trigger r[i]] 0 <= i < r.len() ==> r[i] < keys.len()
    &&& forall|i: int, j: int|
        #![trigger r[i], r[j]]
        0 <= i < j < r.len() ==> comes_before(keys, r[i], r[j])
}

/// Puts the places of numbers in the order of the numbers, the lowest first.
pub fn order_of(keys: &Vec<u64>) -> (r: Vec<usize>)
    requires
        all_numbers(keys@),
    ensures
        is_order(r@, keys@),
{
    let mut out: Vec<usize> = Vec::new();
    for i in 0..keys.len()
        invariant
            out@.len() == i,
            forall|k: int| #![trigger out@[k]] 0 <= k < out@.len() ==> out@[k] < i,
            forall|a: int, b: int|
                #![trigger out@[a], out@[b]]
                0 <= a < b < out@.len() ==> comes_before(keys@, out@[a], out@[b]),
    {
        let mut at: usize = out.len();
        while at > 0 && less(keys[i], keys[out[at - 1]])
            invariant
                i < keys@.len(),
                at <= out@.len(),
                out@.len() == i,
                forall|k: int| #![trigger out@[k]] 0 <= k < out@.len() ==> out@[k] < i,
                forall|k: int|
                    #![trigger out@[k]]
                    at <= k < out@.len() ==> rank(keys@[i as int]) < rank(keys@[out@[k] as int]),
            decreases at,
        {
            at = at - 1;
        }
        let ghost before = out@;
        out.insert(at, i);
        proof {
            assert(out@ == before.insert(at as int, i));
            assert forall|k: int| #![trigger out@[k]] 0 <= k < out@.len() implies out@[k] < i
                + 1 by {
                if k < at {
                    assert(out@[k] == before[k]);
                } else if k > at {
                    assert(out@[k] == before[k - 1]);
                }
            }
            assert forall|a: int, b: int|
                #![trigger out@[a], out@[b]]
                0 <= a < b < out@.len() implies comes_before(keys@, out@[a], out@[b]) by {
                if b < at {
                    assert(out@[a] == before[a] && out@[b] == before[b]);
                } else if b == at {
                    assert(out@[a] == before[a]);
                    if a < at - 1 {
                        assert(comes_before(keys@, before[a], before[at - 1]));
                    }
                } else if a < at {
                    assert(out@[a] == before[a] && out@[b] == before[b - 1]);
                } else if a == at {
                    assert(out@[b] == before[b - 1]);
                } else {
                    assert(out@[a] == before[a - 1] && out@[b] == before[b - 1]);
                }
            }
        }
    }
    out
}

/// In an order each place comes once: two entries are never the same.
pub proof fn law_order_repeats_nothing(r: Seq<usize>, keys: Seq<u64>, i: int, j: int)
    requires
        is_order(r, keys),
        0 <= i < j < r.len(),
    ensures
        r[i] != r[j],
{
    assert(comes_before(keys, r[i], r[j]));
}

/// In an order the numbers count up, numbers that are the same stand as they came, and every
/// place comes.
pub proof fn law_order_is_sorted_and_whole(r: Seq<usize>, keys: Seq<u64>)
    requires
        is_order(r, keys),
    ensures
        forall|i: int, j: int|
            #![trigger r[i], r[j]]
            0 <= i < j < r.len() ==> rank(keys[r[i] as int]) <= rank(keys[r[j] as int]) && (rank(
                keys[r[i] as int],
            ) == rank(keys[r[j] as int]) ==> r[i] < r[j]),
        forall|p: usize| p < keys.len() ==> #[trigger] r.contains(p),
{
    let n = keys.len() as int;
    assert forall|i: int, j: int|
        #![trigger r[i], r[j]]
        0 <= i < j < r.len() implies rank(keys[r[i] as int]) <= rank(keys[r[j] as int]) && (rank(
        keys[r[i] as int],
    ) == rank(keys[r[j] as int]) ==> r[i] < r[j]) by {
        assert(comes_before(keys, r[i], r[j]));
    }
    let places = Seq::new(r.len(), |i: int| r[i] as int);
    assert(places.no_duplicates()) by {
        assert forall|i: int, j: int| 0 <= i < j < places.len() implies places[i] != places[j] by {
            assert(comes_before(keys, r[i], r[j]));
        }
    }
    places.unique_seq_to_set();
    let all = vstd::set_lib::set_int_range(0, n);
    vstd::set_lib::lemma_int_range(0, n);
    assert(places.to_set().subset_of(all)) by {
        assert forall|p: int| places.to_set().contains(p) implies all.contains(p) by {
            let i = choose|i: int| 0 <= i < places.len() && places[i] == p;
            assert(r[i] < keys.len());
        }
    }
    vstd::seq_lib::seq_to_set_is_finite(places);
    vstd::set_lib::lemma_subset_equality(places.to_set(), all);
    assert forall|p: usize| p < keys.len() implies #[trigger] r.contains(p) by {
        assert(all.contains(p as int));
        assert(places.to_set().contains(p as int));
        let i = choose|i: int| 0 <= i < places.len() && places[i] == p;
        assert(r[i] == p);
    }
}

// ---------------------------------------------------------------------------
// The greatest
// ---------------------------------------------------------------------------

/// Finds the last of the greatest numbers.
pub fn greatest(keys: &Vec<u64>) -> (r: Option<usize>)
    requires
        all_numbers(keys@),
    ensures
        match r {
            Some(k) => k < keys@.len() && forall|i: int|
                #![trigger keys@[i]]
                0 <= i < keys@.len() ==> rank(keys@[i]) <= rank(keys@[k as int]) && (i > k
                    ==> rank(keys@[i]) < rank(keys@[k as int])),
            None => keys@.len() == 0,
        },
{
    if keys.len() == 0 {
        return None;
    }
    let mut best: usize = 0;
    for i in 1..keys.len()
        invariant
            best < i <= keys@.len(),
            forall|j: int|
                #![trigger keys@[j]]
                0 <= j < i ==> rank(keys@[j]) <= rank(keys@[best as int]) && (j > best ==> rank(
                    keys@[j],
                ) < rank(keys@[best as int])),
    {
        if !less(keys[i], keys[best]) {
            best = i;
        }
    }
    Some(best)
}

/// Whether the number at `i` counts as a peak: a number above zero.
pub open spec fn is_peak(bits: u64) -> bool {
    !is_nan(bits) && rank(bits) > 0
}

/// The peaks are the numbers above zero, infinity among them: no zero, nothing below it, and
/// nothing that is no number.
pub proof fn law_peaks_are_above_zero(bits: u64)
    ensures
        is_peak(bits) <==> 0 < bits <= 0x7FF0_0000_0000_0000,
{
}

/// Finds the first of the greatest numbers above zero from place `first` to place
/// `last`, or `first` if there is none.
pub fn dominant(keys: &Vec<u64>, first: usize, last: usize) -> (r: usize)
    requires
        last < keys@.len(),
    ensures
        (exists|i: int| #![trigger keys@[i]] first <= i <= last && is_peak(keys@[i])) ==> first <= r
            <= last && is_peak(keys@[r as int]),
        (forall|i: int| #![trigger keys@[i]] first <= i <= last ==> !is_peak(keys@[i])) ==> r
            == first,
        forall|i: int|
            #![trigger keys@[i]]
            first <= i <= last && is_peak(keys@[i]) ==> rank(keys@[i]) <= rank(keys@[r as int])
                && (i < r ==> rank(keys@[i]) < rank(keys@[r as int])),
{
    let n: usize = keys.len();
    let mut best: usize = first;
    let mut best_bits: u64 = 0;
    let mut i: usize = first;
    while i <= last
        invariant
            n == keys@.len(),
            last < n,
            first <= i,
            i <= last + 1 || i == first,
            best == first || first <= best < i,
            best_bits == 0 || (first <= best < i && best_bits == keys@[best as int] && is_peak(
                best_bits,
            )),
            best_bits == 0 ==> best == first,
            forall|j: int|
                #![trigger keys@[j]]
                first <= j < i && is_peak(keys@[j]) ==> best_bits != 0 && rank(keys@[j]) <= rank(
                    best_bits,
                ) && (j < best ==> rank(keys@[j]) < rank(best_bits)),
        decreases last + 1 - i,
    {
        let bits: u64 = keys[i];
        if is_number(bits) && less(best_bits, bits) {
            best = i;
            best_bits = bits;
        }
        i = i + 1;
    }
    best
}

// ---------------------------------------------------------------------------
// Levels
// ---------------------------------------------------------------------------

/// Whether the numbers pass a level between place `i` and the next: upwards or
/// downwards.
pub open spec fn passes(keys: Seq<u64>, i: int, level: u64, rising: bool) -> bool {
    if rising {
        rank(keys[i]) < rank(level) && rank(keys[i + 1]) >= rank(level)
    } else {
        rank(keys[i]) >= rank(level) && rank(keys[i + 1]) < rank(level)
    }
}

/// Numbers that get from below a level up to it, or from it down below, pass it somewhere on
/// the way.
pub proof fn law_level_is_passed(keys: Seq<u64>, from: int, to: int, level: u64, rising: bool)
    requires
        0 <= from < to < keys.len(),
        rising ==> rank(keys[from]) < rank(level) <= rank(keys[to]),
        !rising ==> rank(keys[to]) < rank(level) <= rank(keys[from]),
    ensures
        exists|i: int| from <= i < to && #[trigger] passes(keys, i, level, rising),
    decreases to - from,
{
    if passes(keys, from, level, rising) {
    } else {
        law_level_is_passed(keys, from + 1, to, level, rising);
        let i = choose|i: int| from + 1 <= i < to && #[trigger] passes(keys, i, level, rising);
        assert(passes(keys, i, level, rising));
    }
}

/// Finds where the numbers from place `from` to place `to` first pass a level.
pub fn crossing(keys: &Vec<u64>, from: usize, to: usize, level: u64, rising: bool) -> (r: Option<
    usize,
>)
    requires
        all_numbers(keys@),
        !is_nan(level),
        to < keys@.len(),
    ensures
        match r {
            Some(k) => from <= k < to && passes(keys@, k as int, level, rising) && forall|i: int|
                from <= i < k ==> !#[trigger] passes(keys@, i, level, rising),
            None => forall|i: int| from <= i < to ==> !#[trigger] passes(keys@, i, level, rising),
        },
{
    let mut i: usize = from;
    while i < to
        invariant
            to < keys@.len(),
            from <= i,
            forall|j: int| from <= j < i ==> !#[trigger] passes(keys@, j, level, rising),
        decreases to - i,
    {
        let low = less(keys[i], level);
        let next_low = less(keys[i + 1], level);
        if (rising && low && !next_low) || (!rising && !low && next_low) {
            assert(passes(keys@, i as int, level, rising));
            return Some(i);
        }
        assert(!passes(keys@, i as int, level, rising));
        i = i + 1;
    }
    None
}

// ---------------------------------------------------------------------------
// Intervals
// ---------------------------------------------------------------------------

/// Where a value lies with respect to knots.
#[derive(Debug, Clone, Copy, PartialEq, Eq, Structural)]
pub enum Interval {
    /// Not behind the first knot.
    Before,
    /// Between this knot and the next.
    Within(usize),
    /// Not before the last knot.
    After,
}

/// Finds where a value lies with respect to knots.
pub fn interval_of(knots: &Vec<u64>, at: u64) -> (r: Interval)
    requires
        all_numbers(knots@),
        !is_nan(at),
        knots@.len() > 0,
    ensures
        match r {
            Interval::Before => rank(at) <= rank(knots@[0]),
            Interval::After => rank(at) > rank(knots@[0]) && rank(at) >= rank(knots@.last()),
            Interval::Within(j) => {
                &&& rank(at) > rank(knots@[0])
                &&& rank(at) < rank(knots@.last())
                &&& j + 1 < knots@.len()
                &&& rank(knots@[j as int]) <= rank(at)
                &&& rank(at) < rank(knots@[j + 1])
            },
        },
{
    let n: usize = knots.len();
    if !less(knots[0], at) {
        return Interval::Before;
    }
    if !less(at, knots[n - 1]) {
        return Interval::After;
    }
    let mut low: usize = 0;
    let mut high: usize = n - 1;
    while high - low > 1
        invariant
            low < high < knots@.len(),
            rank(knots@[low as int]) <= rank(at),
            rank(at) < rank(knots@[high as int]),
        decreases high - low,
    {
        let mid: usize = low + (high - low) / 2;
        if less(at, knots[mid]) {
            high = mid;
        } else {
            low = mid;
        }
    }
    Interval::Within(low)
}

/// Among knots in order a value lies in one interval only.
pub proof fn law_one_interval(knots: Seq<u64>, at: u64, i: int, j: int)
    requires
        forall|a: int, b: int|
            #![trigger knots[a], knots[b]]
            0 <= a <= b < knots.len() ==> rank(knots[a]) <= rank(knots[b]),
        0 <= i < knots.len() - 1,
        0 <= j < knots.len() - 1,
        rank(knots[i]) <= rank(at) && rank(at) < rank(knots[i + 1]),
        rank(knots[j]) <= rank(at) && rank(at) < rank(knots[j + 1]),
    ensures
        i == j,
{
    if i < j {
        assert(rank(knots[i + 1]) <= rank(knots[j]));
    } else if j < i {
        assert(rank(knots[j + 1]) <= rank(knots[i]));
    }
}

} // verus!
