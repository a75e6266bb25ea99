//! Recordings on disk: file names, the text that goes into a file's metadata, and
//! the samples that its columns stand for.

use crate::protocol::Sample;
use crate::session::{Recording, RecordingView, Selection};
use crate::text::{
    append_decimal, append_decimal3, chars_of, decimal, decimal3, decimal_text, digit_char, is_digit,
    number, parse_number, text_of, trim_bounds, trimmed,
};
use crate::timeline::SYSTIMER_TICKS_PER_S;
use crate::types::{AdcCount, SampleRateHz};
use vstd::prelude::*;

verus! {

// ---------------------------------------------------------------------------
// File names
// ---------------------------------------------------------------------------

/// The directory of the recordings.
pub fn recordings_dir() -> (r: String)
    ensures
        r@ == "recordings"@,
{
    String::from_str("recordings")
}

/// The file of the comments.
pub fn comments_path() -> (r: String)
    ensures
        r@ == "recordings/comments.json"@,
{
    String::from_str("recordings/comments.json")
}

/// What comes before a suffix, if the text ends with it.
pub open spec fn before_suffix(s: Seq<char>, suffix: Seq<char>) -> Option<Seq<char>> {
    if s.len() >= suffix.len() && s.skip(s.len() - suffix.len()) == suffix {
        Some(s.take(s.len() - suffix.len()))
    } else {
        None
    }
}

fn stem_len(name: &[char]) -> (r: Option<usize>)
    ensures
        match r {
            Some(n) => n <= name@.len() && before_suffix(name@, ".parquet"@) == Some(
                name@.take(n as int),
            ),
            None => before_suffix(name@, ".parquet"@) is None,
        },
{
    proof {
        reveal_strlit(".parquet");
    }
    let n: usize = name.len();
    if n < 8 {
        return None;
    }
    let ghost tail = name@.skip(n - 8);
    if name[n - 8] == '.' && name[n - 7] == 'p' && name[n - 6] == 'a' && name[n - 5] == 'r'
        && name[n - 4] == 'q' && name[n - 3] == 'u' && name[n - 2] == 'e' && name[n - 1] == 't' {
        assert(tail =~= ".parquet"@);
        Some(n - 8)
    } else {
        assert(tail[0] == name@[n - 8] && tail[1] == name@[n - 7] && tail[2] == name@[n - 6]
            && tail[3] == name@[n - 5] && tail[4] == name@[n - 4] && tail[5] == name@[n - 3]
            && tail[6] == name@[n - 2] && tail[7] == name@[n - 1]);
        None
    }
}

/// The number that a recording's file name stands for.
pub open spec fn file_number(name: Seq<char>, max: nat) -> Option<nat> {
    match before_suffix(name, ".parquet"@) {
        Some(stem) => number(stem, max),
        None => None,
    }
}

/// The number of a recording's file, as far as it does not exceed `max`.
pub fn file_index(name: &str, max: u64) -> (r: Option<u64>)
    ensures
        match r {
            Some(n) => file_number(name@, max as nat) == Some(n as nat),
            None => file_number(name@, max as nat) is None,
        },
{
    let chars = chars_of(name);
    match stem_len(chars.as_slice()) {
        Some(n) => {
            assert(chars@.subrange(0, n as int) =~= chars@.take(n as int));
            parse_number(chars.as_slice(), 0, n, max)
        },
        None => None,
    }
}

/// The file name of recording number `n`.
pub open spec fn file_name_of(n: nat) -> Seq<char> {
    decimal3(n) + ".parquet"@
}

/// The file name of recording number `n`.
pub fn recording_file_name(n: usize) -> (r: String)
    ensures
        r@ == file_name_of(n as nat),
{
    let mut out = String::new();
    append_decimal3(&mut out, n as u64);
    out.append(".parquet");
    assert(out@ =~= file_name_of(n as nat));
    out
}

/// The file name of a recording stands for its number.
pub proof fn law_file_name_read_back(n: nat, max: nat)
    requires
        n <= max,
    ensures
        file_number(file_name_of(n), max) == Some(n),
{
    reveal_strlit(".parquet");
    let s = file_name_of(n);
    let d = decimal3(n);
    assert(s.skip(s.len() - 8) =~= ".parquet"@);
    assert(s.take(s.len() - 8) =~= d);
    crate::text::law_decimal3_read_back(n, max);
}

/// One more than the greatest number among the file names, 0 if there is none.
pub open spec fn next_index(names: Seq<Seq<char>>) -> nat
    decreases names.len(),
{
    if names.len() == 0 {
        0
    } else {
        let before = next_index(names.drop_last());
        match file_number(names.last(), usize::MAX as nat) {
            Some(n) => if n + 1 > before {
                n + 1
            } else {
                before
            },
            None => before,
        }
    }
}

/// The texts of strings.
pub open spec fn texts(s: Seq<String>) -> Seq<Seq<char>> {
    s.map_values(|x: String| x@)
}

/// The number for the next recording, given the names of the files there are.
pub fn next_file_index(names: &Vec<String>) -> (r: usize)
    requires
        forall|i: int|
            0 <= i < names@.len() ==> file_number(#[trigger] names@[i]@, usize::MAX as nat) != Some(
                usize::MAX as nat,
            ),
    ensures
        r == next_index(texts(names@)),
{
    let mut next: usize = 0;
    for i in 0..names.len()
        invariant
            next == next_index(texts(names@.take(i as int))),
            forall|j: int|
                0 <= j < names@.len() ==> file_number(#[trigger] names@[j]@, usize::MAX as nat)
                    != Some(usize::MAX as nat),
    {
        assert(texts(names@.take(i + 1)).drop_last() =~= texts(names@.take(i as int)));
        assert(texts(names@.take(i + 1)).last() == names@[i as int]@);
        if let Some(n) = file_index(names[i].as_str(), usize::MAX as u64) {
            let after: usize = n as usize + 1;
            if after > next {
                next = after;
            }
        }
    }
    assert(names@.take(names@.len() as int) =~= names@);
    next
}

proof fn lemma_next_index_above(names: Seq<Seq<char>>, i: int)
    requires
        0 <= i < names.len(),
    ensures
        file_number(names[i], usize::MAX as nat) matches Some(n) ==> n < next_index(names),
    decreases names.len(),
{
    if i < names.len() - 1 {
        lemma_next_index_above(names.drop_last(), i);
    }
}

/// The name of the next recording is not among the names that there are.
pub proof fn law_next_name_is_new(names: Seq<Seq<char>>, i: int)
    requires
        0 <= i < names.len(),
        next_index(names) <= usize::MAX,
    ensures
        names[i] != file_name_of(next_index(names)),
{
    lemma_next_index_above(names, i);
    law_file_name_read_back(next_index(names), usize::MAX as nat);
}

/// The next number is no greater than it has to be: it is 0, or there is a file with the
/// number before it.
pub proof fn law_next_number_follows_a_file(names: Seq<Seq<char>>)
    ensures
        next_index(names) == 0 || exists|i: int|
            0 <= i < names.len() && file_number(#[trigger] names[i], usize::MAX as nat) == Some(
                (next_index(names) - 1) as nat,
            ),
        forall|i: int|
            0 <= i < names.len() ==> (file_number(#[trigger] names[i], usize::MAX as nat) matches Some(
                k,
            ) ==> k < next_index(names)),
    decreases names.len(),
{
    if names.len() > 0 {
        let front = names.drop_last();
        law_next_number_follows_a_file(front);
        assert(names[names.len() - 1] == names.last());
        if next_index(names) == next_index(front) && next_index(front) > 0 {
            let i = choose|i: int|
                0 <= i < front.len() && file_number(#[trigger] front[i], usize::MAX as nat) == Some(
                    (next_index(front) - 1) as nat,
                );
            assert(names[i] == front[i]);
        }
        assert forall|i: int| 0 <= i < names.len() implies (file_number(
            #[trigger] names[i],
            usize::MAX as nat,
        ) matches Some(k) ==> k < next_index(names)) by {
            lemma_next_index_above(names, i);
        }
    }
}

/// Whatever stands in front of the suffix is what a recording is listed as, and a file
/// without the suffix is listed under its whole name; one without a name is new.
pub proof fn law_listed_by_its_stem(stem: Seq<char>, n: nat)
    ensures
        before_suffix(stem + ".parquet"@, ".parquet"@) == Some(stem),
        listed_as(stem + ".parquet"@) == stem,
        listed_as(file_name_of(n)) == decimal3(n),
        is_recording_file(stem + ".parquet"@) <==> stem.len() > 0,
        is_recording_file(file_name_of(n)),
        listed_as(seq![]) == "new"@,
        before_suffix(stem, ".parquet"@) is None && stem.len() > 0 ==> listed_as(stem) == stem,
        before_suffix(stem, ".parquet"@) matches Some(t) ==> stem == t + ".parquet"@,
{
    reveal_strlit(".parquet");
    let s = stem + ".parquet"@;
    assert(s.skip(s.len() - 8) =~= ".parquet"@);
    assert(s.take(s.len() - 8) =~= stem);
    crate::text::law_decimal3_pads_with_zeros(n);
    let t = file_name_of(n);
    assert(t.skip(t.len() - 8) =~= ".parquet"@);
    assert(t.take(t.len() - 8) =~= decimal3(n));
    if before_suffix(stem, ".parquet"@) is Some {
        assert(stem =~= stem.take(stem.len() - 8) + ".parquet"@);
    }
}

/// How a recording is listed: its file name without the suffix, or as new if it
/// has no file.
pub open spec fn listed_as(filename: Seq<char>) -> Seq<char> {
    if filename.len() == 0 {
        "new"@
    } else {
        match before_suffix(filename, ".parquet"@) {
            Some(stem) => stem,
            None => filename,
        }
    }
}

/// How a recording is listed.
pub fn display_name(filename: &str) -> (r: String)
    ensures
        r@ == listed_as(filename@),
{
    if filename.unicode_len() == 0 {
        return String::from_str("new");
    }
    let chars = chars_of(filename);
    match stem_len(chars.as_slice()) {
        Some(n) => {
            let stem = filename.substring_char(0, n);
            assert(filename@.subrange(0, n as int) =~= filename@.take(n as int));
            String::from_str(stem)
        },
        None => String::from_str(filename),
    }
}

// ---------------------------------------------------------------------------
// Files in order
// ---------------------------------------------------------------------------

/// Whether one name stands no later than another in a listing by code points.
pub open spec fn name_le(a: Seq<char>, b: Seq<char>) -> bool
    decreases a.len(),
{
    if a.len() == 0 {
        true
    } else if b.len() == 0 {
        false
    } else if a[0] == b[0] {
        name_le(a.skip(1), b.skip(1))
    } else {
        a[0] < b[0]
    }
}

proof fn lemma_name_le_total(a: Seq<char>, b: Seq<char>)
    ensures
        name_le(a, b) || name_le(b, a),
    decreases a.len(),
{
    if a.len() > 0 && b.len() > 0 && a[0] == b[0] {
        lemma_name_le_total(a.skip(1), b.skip(1));
    }
}

proof fn lemma_name_le_transitive(a: Seq<char>, b: Seq<char>, c: Seq<char>)
    requires
        name_le(a, b),
        name_le(b, c),
    ensures
        name_le(a, c),
    decreases a.len(),
{
    if a.len() > 0 && b.len() > 0 && c.len() > 0 && a[0] == b[0] && b[0] == c[0] {
        lemma_name_le_transitive(a.skip(1), b.skip(1), c.skip(1));
    }
}

fn name_no_later(a: &[char], b: &[char]) -> (r: bool)
    ensures
        r == name_le(a@, b@),
{
    let mut i: usize = 0;
    assert(a@.skip(0) =~= a@);
    assert(b@.skip(0) =~= b@);
    while i < a.len() && i < b.len() && a[i] == b[i]
        invariant
            i <= a@.len(),
            i <= b@.len(),
            name_le(a@, b@) == name_le(a@.skip(i as int), b@.skip(i as int)),
        decreases a@.len() - i,
    {
        assert(a@.skip(i as int).skip(1) =~= a@.skip(i + 1));
        assert(b@.skip(i as int).skip(1) =~= b@.skip(i + 1));
        i = i + 1;
    }
    if i == a.len() {
        true
    } else if i == b.len() {
        false
    } else {
        a[i] < b[i]
    }
}

/// Names are ordered: of two names one stands no later than the other, two that stand no
/// later than each other are the same, and the order goes on from name to name.
pub proof fn law_names_are_ordered(a: Seq<char>, b: Seq<char>, c: Seq<char>)
    ensures
        name_le(a, a),
        name_le(a, b) || name_le(b, a),
        name_le(a, b) && name_le(b, a) ==> a == b,
        name_le(a, b) && name_le(b, c) ==> name_le(a, c),
{
    lemma_name_le_total(a, a);
    lemma_name_le_total(a, b);
    if name_le(a, b) && name_le(b, c) {
        lemma_name_le_transitive(a, b, c);
    }
    if name_le(a, b) && name_le(b, a) {
        lemma_name_le_same(a, b);
    }
}

proof fn lemma_name_le_same(a: Seq<char>, b: Seq<char>)
    requires
        name_le(a, b),
        name_le(b, a),
    ensures
        a == b,
    decreases a.len(),
{
    if a.len() > 0 {
        lemma_name_le_same(a.skip(1), b.skip(1));
        assert(a =~= seq![a[0]] + a.skip(1));
        assert(b =~= seq![b[0]] + b.skip(1));
    } else {
        assert(a =~= b);
    }
}

/// The first character in which two names differ decides which of them stands before the
/// other; a name stands before those that go on from it.
pub proof fn law_first_difference_decides(p: Seq<char>, a: Seq<char>, b: Seq<char>)
    ensures
        name_le(p, p + a),
        a.len() > 0 ==> !name_le(p + a, p),
        a.len() > 0 && b.len() > 0 && a[0] < b[0] ==> name_le(p + a, p + b) && !name_le(p + b, p + a),
    decreases p.len(),
{
    if p.len() == 0 {
        assert(p + a =~= a);
        assert(p + b =~= b);
    } else {
        let q = p.skip(1);
        law_first_difference_decides(q, a, b);
        assert((p + a).skip(1) =~= q + a);
        assert((p + b).skip(1) =~= q + b);
    }
}

/// Up to number 999 the files of recordings stand in a listing by name in the order of their
/// numbers.
pub proof fn law_files_by_name_are_by_number(m: nat, n: nat)
    requires
        m < n < 1000,
    ensures
        name_le(file_name_of(m), file_name_of(n)),
        !name_le(file_name_of(n), file_name_of(m)),
{
    lemma_three_digits(m);
    lemma_three_digits(n);
    reveal_strlit(".parquet");
    let a = file_name_of(m);
    let b = file_name_of(n);
    let k: int = if m / 100 != n / 100 {
        0
    } else if m / 10 != n / 10 {
        1
    } else {
        2
    };
    assert(a.take(k) =~= b.take(k));
    assert(a =~= a.take(k) + a.skip(k));
    assert(b =~= a.take(k) + b.skip(k));
    law_first_difference_decides(a.take(k), a.skip(k), b.skip(k));
}

proof fn lemma_three_digits(n: nat)
    requires
        n < 1000,
    ensures
        decimal3(n) == seq![digit_char(n / 100), digit_char(n / 10 % 10), digit_char(n % 10)],
{
    reveal_with_fuel(decimal, 3);
    assert(n / 10 / 10 == n / 100);
    crate::text::law_decimal3_pads_with_zeros(n);
    assert(decimal3(n) =~= seq![
        digit_char(n / 100),
        digit_char(n / 10 % 10),
        digit_char(n % 10),
    ]);
}

/// Whether a name is that of a recording's file: it has the suffix and something in
/// front of it.
pub open spec fn is_recording_file(name: Seq<char>) -> bool {
    before_suffix(name, ".parquet"@) matches Some(stem) && stem.len() > 0
}

/// The files of recordings in order of their names, as places among `names`.
pub open spec fn lists_recordings(r: Seq<usize>, names: Seq<Seq<char>>) -> bool {
    &&& forall|a: int, b: int|
        0 <= a < b < r.len() ==> name_le(names[#[trigger] r[a] as int], names[#[trigger] r[b] as int])
    &&& forall|a: int, b: int| 0 <= a < b < r.len() ==> #[trigger] r[a] != #[trigger] r[b]
    &&& forall|a: int|
        0 <= a < r.len() ==> (#[trigger] r[a]) < names.len() && is_recording_file(
            names[r[a] as int],
        )
    &&& forall|i: int|
        0 <= i < names.len() && is_recording_file(#[trigger] names[i]) ==> exists|a: int|
            0 <= a < r.len() && #[trigger] r[a] == i
}

/// The files of recordings in order of their names, as places among `names`.
pub fn recording_files_by_name(names: &Vec<String>) -> (r: Vec<usize>)
    ensures
        lists_recordings(r@, texts(names@)),
{
    let mut chars: Vec<Vec<char>> = Vec::new();
    let ghost all = texts(names@);
    for i in 0..names.len()
        invariant
            chars@.len() == i,
            all == texts(names@),
            forall|j: int| 0 <= j < i ==> (#[trigger] chars@[j])@ == all[j],
    {
        chars.push(chars_of(names[i].as_str()));
    }
    let mut out: Vec<usize> = Vec::new();
    for i in 0..names.len()
        invariant
            all == texts(names@),
            all.len() == names@.len(),
            chars@.len() == names@.len(),
            forall|j: int| 0 <= j < chars@.len() ==> (#[trigger] chars@[j])@ == all[j],
            lists_recordings(out@, all.take(i as int)),
    {
        let named: bool = match stem_len(chars[i].as_slice()) {
            Some(n) => n > 0,
            None => false,
        };
        if named {
            out = insert_by_name(&chars, out, i, Ghost(all));
        } else {
            proof {
                lemma_lists_same(out@, all, i as int);
            }
        }
    }
    assert(all.take(all.len() as int) =~= all);
    out
}

proof fn lemma_lists_same(r: Seq<usize>, all: Seq<Seq<char>>, i: int)
    requires
        0 <= i < all.len(),
        lists_recordings(r, all.take(i)),
        !is_recording_file(all[i]),
    ensures
        lists_recordings(r, all.take(i + 1)),
{
    let before = all.take(i);
    let now = all.take(i + 1);
    assert forall|j: int| 0 <= j < now.len() && is_recording_file(#[trigger] now[j]) implies exists|
        a: int,
    | 0 <= a < r.len() && #[trigger] r[a] == j by {
        assert(before[j] == now[j]);
    }
    assert forall|a: int| 0 <= a < r.len() implies (#[trigger] r[a]) < now.len()
        && is_recording_file(now[r[a] as int]) by {
        assert(before[r[a] as int] == now[r[a] as int]);
    }
    assert forall|a: int, b: int| 0 <= a < b < r.len() implies name_le(
        now[#[trigger] r[a] as int],
        now[#[trigger] r[b] as int],
    ) by {
        assert(name_le(before[r[a] as int], before[r[b] as int]));
    }
}

fn insert_by_name(
    chars: &Vec<Vec<char>>,
    list: Vec<usize>,
    i: usize,
    Ghost(all): Ghost<Seq<Seq<char>>>,
) -> (r: Vec<usize>)
    requires
        chars@.len() == all.len(),
        i < all.len(),
        forall|j: int| 0 <= j < chars@.len() ==> (#[trigger] chars@[j])@ == all[j],
        lists_recordings(list@, all.take(i as int)),
        is_recording_file(all[i as int]),
    ensures
        lists_recordings(r@, all.take(i + 1)),
{
    let mut out = list;
    let ghost before = out@;
    let ghost prior = all.take(i as int);
    let ghost now = all.take(i + 1);
    let mut p: usize = out.len();
    proof {
        assert forall|a: int| 0 <= a < before.len() implies (#[trigger] before[a]) < i by {
            assert(before[a] < prior.len());
        }
    }
    while p > 0 && !name_no_later(chars[out[p - 1]].as_slice(), chars[i].as_slice())
        invariant
            p <= out@.len(),
            out@ == before,
            i < all.len(),
            chars@.len() == all.len(),
            forall|j: int| 0 <= j < chars@.len() ==> (#[trigger] chars@[j])@ == all[j],
            forall|a: int| 0 <= a < before.len() ==> (#[trigger] before[a]) < i,
            forall|a: int|
                p <= a < before.len() ==> !name_le(all[#[trigger] before[a] as int], all[i as int]),
        decreases p,
    {
        p = p - 1;
    }
    out.insert(p, i);
    proof {
        let r = out@;
        assert forall|a: int, b: int| 0 <= a < b < before.len() implies name_le(
            all[#[trigger] before[a] as int],
            all[#[trigger] before[b] as int],
        ) by {
            assert(name_le(prior[before[a] as int], prior[before[b] as int]));
        }
        assert forall|a: int, b: int| 0 <= a < b < r.len() implies name_le(
            now[#[trigger] r[a] as int],
            now[#[trigger] r[b] as int],
        ) by {
            if b == p {
                assert(r[a] == before[a]);
                let last = before[p - 1] as int;
                assert(name_le(all[last], all[i as int]));
                if a < p - 1 {
                    lemma_name_le_transitive(
                        all[before[a] as int],
                        all[last],
                        all[i as int],
                    );
                }
            } else if a == p {
                assert(r[b] == before[b - 1]);
                lemma_name_le_total(all[before[b - 1] as int], all[i as int]);
            } else {
                let x = if a < p {
                    a
                } else {
                    a - 1
                };
                let y = if b < p {
                    b
                } else {
                    b - 1
                };
                assert(r[a] == before[x] && r[b] == before[y]);
            }
        }
        assert forall|a: int, b: int| 0 <= a < b < r.len() implies #[trigger] r[a]
            != #[trigger] r[b] by {
            if a != p && b != p {
                let x = if a < p {
                    a
                } else {
                    a - 1
                };
                let y = if b < p {
                    b
                } else {
                    b - 1
                };
                assert(r[a] == before[x] && r[b] == before[y]);
            } else if a == p {
                assert(r[b] == before[b - 1]);
            } else {
                assert(r[a] == before[a]);
            }
        }
        assert forall|a: int| 0 <= a < r.len() implies (#[trigger] r[a]) < now.len()
            && is_recording_file(now[r[a] as int]) by {
            if a != p {
                let x = if a < p {
                    a
                } else {
                    a - 1
                };
                assert(r[a] == before[x]);
                assert(is_recording_file(prior[before[x] as int]));
            }
        }
        assert forall|j: int| 0 <= j < now.len() && is_recording_file(#[trigger] now[j]) implies exists|
            a: int,
        | 0 <= a < r.len() && #[trigger] r[a] == j by {
            if j == i {
                assert(r[p as int] == j);
            } else {
                assert(prior[j] == now[j]);
                let x = choose|x: int| 0 <= x < before.len() && #[trigger] before[x] == j;
                let a = if x < p {
                    x
                } else {
                    x + 1
                };
                assert(r[a] == before[x]);
            }
        }
    }
    out
}

/// A file and the number in its name.
#[derive(Debug, Clone, Copy, PartialEq, Eq, Structural)]
pub struct NumberedFile {
    pub number: u32,
    /// Place among the names.
    pub place: usize,
}

/// Whether one file stands before another in a listing by number.
pub open spec fn file_before(a: NumberedFile, b: NumberedFile) -> bool {
    a.number < b.number || (a.number == b.number && a.place < b.place)
}

/// Whether a file is the one at its place.
pub open spec fn numbered(f: NumberedFile, names: Seq<Seq<char>>) -> bool {
    f.place < names.len() && file_number(names[f.place as int], u32::MAX as nat) == Some(
        f.number as nat,
    )
}

/// The files with a number in order of their numbers.
pub open spec fn lists_numbers(r: Seq<NumberedFile>, names: Seq<Seq<char>>) -> bool {
    &&& forall|a: int, b: int| 0 <= a < b < r.len() ==> file_before(#[trigger] r[a], #[trigger] r[b])
    &&& forall|a: int| 0 <= a < r.len() ==> numbered(#[trigger] r[a], names)
    &&& forall|f: NumberedFile| #[trigger] numbered(f, names) ==> r.contains(f)
}

/// The files with a number in order of their numbers; files with the same number in
/// the order in which they were found.
pub fn recording_files_sorted(names: &Vec<String>) -> (r: Vec<NumberedFile>)
    ensures
        lists_numbers(r@, texts(names@)),
{
    let mut out: Vec<NumberedFile> = Vec::new();
    let ghost all = texts(names@);
    for i in 0..names.len()
        invariant
            all == texts(names@),
            all.len() == names@.len(),
            lists_numbers(out@, all.take(i as int)),
    {
        let ghost before = out@;
        let ghost prior = all.take(i as int);
        let ghost now = all.take(i + 1);
        proof {
            assert forall|a: int| 0 <= a < before.len() implies (#[trigger] before[a]).place < i by {
                assert(numbered(before[a], prior));
            }
        }
        match file_index(names[i].as_str(), u32::MAX as u64) {
            Some(n) => {
                let f = NumberedFile { number: n as u32, place: i };
                let mut p: usize = out.len();
                while p > 0 && out[p - 1].number > f.number
                    invariant
                        p <= out@.len(),
                        out@ == before,
                        forall|a: int|
                            p <= a < before.len() ==> (#[trigger] before[a]).number > f.number,
                    decreases p,
                {
                    p = p - 1;
                }
                out.insert(p, f);
                proof {
                    lemma_inserted(before, out@, all, i as int, p as int, f);
                }
            },
            None => {
                proof {
                    assert forall|a: int| 0 <= a < before.len() implies numbered(
                        #[trigger] before[a],
                        now,
                    ) by {
                        assert(numbered(before[a], prior));
                    }
                    assert forall|g: NumberedFile| #[trigger] numbered(g, now) implies before.contains(
                        g,
                    ) by {
                        assert(now[g.place as int] == all[g.place as int]);
                        assert(g.place != i);
                        assert(numbered(g, prior));
                    }
                }
            },
        }
    }
    assert(all.take(all.len() as int) =~= all);
    out
}

proof fn lemma_inserted(
    before: Seq<NumberedFile>,
    r: Seq<NumberedFile>,
    all: Seq<Seq<char>>,
    i: int,
    p: int,
    f: NumberedFile,
)
    requires
        0 <= i < all.len(),
        lists_numbers(before, all.take(i)),
        0 <= p <= before.len(),
        r == before.insert(p, f),
        f.place == i,
        file_number(all[i], u32::MAX as nat) == Some(f.number as nat),
        p > 0 ==> before[p - 1].number <= f.number,
        forall|a: int| p <= a < before.len() ==> (#[trigger] before[a]).number > f.number,
        forall|a: int| 0 <= a < before.len() ==> (#[trigger] before[a]).place < i,
    ensures
        lists_numbers(r, all.take(i + 1)),
{
    let prior = all.take(i);
    let now = all.take(i + 1);
    assert forall|a: int, b: int| 0 <= a < b < r.len() implies file_before(
        #[trigger] r[a],
        #[trigger] r[b],
    ) by {
        if b == p {
            assert(r[a] == before[a]);
            if a < p - 1 {
                assert(file_before(before[a], before[p - 1]));
            }
        } else if a == p {
            assert(r[b] == before[b - 1]);
        } else {
            let x = if a < p {
                a
            } else {
                a - 1
            };
            let y = if b < p {
                b
            } else {
                b - 1
            };
            assert(r[a] == before[x] && r[b] == before[y]);
        }
    }
    assert forall|a: int| 0 <= a < r.len() implies numbered(#[trigger] r[a], now) by {
        if a != p {
            let x = if a < p {
                a
            } else {
                a - 1
            };
            assert(r[a] == before[x]);
            assert(numbered(before[x], prior));
        }
    }
    assert forall|g: NumberedFile| #[trigger] numbered(g, now) implies r.contains(g) by {
        assert(now[g.place as int] == all[g.place as int]);
        if g.place == i {
            assert(g == f);
            assert(r[p] == g);
        } else {
            assert(numbered(g, prior));
            let x = choose|x: int| 0 <= x < before.len() && before[x] == g;
            let a = if x < p {
                x
            } else {
                x + 1
            };
            assert(r[a] == g);
        }
    }
}

/// The files that were asked for, all of them if none was.
pub open spec fn targets_of(files: Seq<NumberedFile>, wanted: Seq<u32>) -> Seq<NumberedFile> {
    if wanted.len() == 0 {
        files
    } else {
        files.filter(|f: NumberedFile| wanted.contains(f.number))
    }
}

/// Just the files with a number that was asked for are picked, all of them where nothing was
/// asked for, and they stay in order.
pub proof fn law_targets_are_those_wanted(
    files: Seq<NumberedFile>,
    wanted: Seq<u32>,
    f: NumberedFile,
)
    ensures
        targets_of(files, wanted).contains(f) <==> files.contains(f) && (wanted.len() == 0
            || wanted.contains(f.number)),
        (forall|a: int, b: int|
            0 <= a < b < files.len() ==> file_before(#[trigger] files[a], #[trigger] files[b]))
            ==> (forall|a: int, b: int|
            0 <= a < b < targets_of(files, wanted).len() ==> file_before(
                #[trigger] targets_of(files, wanted)[a],
                #[trigger] targets_of(files, wanted)[b],
            )),
    decreases files.len(),
{
    reveal(Seq::filter);
    if wanted.len() > 0 && files.len() > 0 {
        let front = files.drop_last();
        let t = targets_of(front, wanted);
        let r = targets_of(files, wanted);
        assert(files.last() == files[files.len() - 1]);
        law_targets_are_those_wanted(front, wanted, f);
        if r.contains(f) && !t.contains(f) {
            assert(f == files.last());
        }
        if t.contains(f) {
            let i = choose|i: int| 0 <= i < t.len() && t[i] == f;
            assert(r[i] == f);
        }
        if files.contains(f) && !front.contains(f) {
            let i = choose|i: int| 0 <= i < files.len() && files[i] == f;
            if i < front.len() {
                assert(front[i] == f);
            }
            if wanted.contains(f.number) {
                assert(r.last() == f);
                assert(r[r.len() - 1] == f);
            }
        }
        if front.contains(f) {
            let i = choose|i: int| 0 <= i < front.len() && front[i] == f;
            assert(files[i] == f);
        }
        if forall|a: int, b: int|
            0 <= a < b < files.len() ==> file_before(#[trigger] files[a], #[trigger] files[b]) {
            assert forall|a: int, b: int| 0 <= a < b < front.len() implies file_before(
                #[trigger] front[a],
                #[trigger] front[b],
            ) by {
                assert(front[a] == files[a] && front[b] == files[b]);
            }
            assert forall|a: int, b: int| 0 <= a < b < r.len() implies file_before(
                #[trigger] r[a],
                #[trigger] r[b],
            ) by {
                if b < t.len() {
                    assert(r[a] == t[a] && r[b] == t[b]);
                } else {
                    law_targets_are_those_wanted(front, wanted, t[a]);
                    assert(t.contains(t[a]));
                    let i = choose|i: int| 0 <= i < front.len() && front[i] == t[a];
                    assert(files[i] == r[a]);
                    assert(files[files.len() - 1] == r[b]);
                }
            }
        }
    }
}

/// The files that were asked for by number, all of them if none was.
pub fn pick_targets(files: &Vec<NumberedFile>, wanted: &Vec<u32>) -> (r: Vec<NumberedFile>)
    ensures
        r@ == targets_of(files@, wanted@),
{
    let ghost pred = |f: NumberedFile| wanted@.contains(f.number);
    let mut out: Vec<NumberedFile> = Vec::new();
    for i in 0..files.len()
        invariant
            pred == (|f: NumberedFile| wanted@.contains(f.number)),
            out@ == if wanted@.len() == 0 {
                files@.take(i as int)
            } else {
                files@.take(i as int).filter(pred)
            },
    {
        let f: NumberedFile = files[i];
        let mut found: bool = wanted.len() == 0;
        for j in 0..wanted.len()
            invariant
                found == (wanted@.len() == 0 || exists|k: int|
                    0 <= k < j && #[trigger] wanted@[k] == f.number),
        {
            if wanted[j] == f.number {
                found = true;
            }
        }
        proof {
            reveal(Seq::filter);
            assert(files@.take(i + 1).drop_last() =~= files@.take(i as int));
            assert(files@.take(i + 1) =~= files@.take(i as int).push(f));
        }
        if found {
            out.push(f);
        }
    }
    proof {
        reveal(Seq::filter);
        assert(files@.take(files@.len() as int) =~= files@);
        assert(files@.take(0) =~= seq![]);
    }
    out
}

// ---------------------------------------------------------------------------
// Edge ticks as text
// ---------------------------------------------------------------------------

/// Numbers in decimal with commas between them.
pub open spec fn joined(ticks: Seq<u64>) -> Seq<char>
    decreases ticks.len(),
{
    if ticks.len() == 0 {
        seq![]
    } else if ticks.len() == 1 {
        decimal(ticks[0] as nat)
    } else {
        joined(ticks.drop_last()) + seq![','] + decimal(ticks.last() as nat)
    }
}

/// Numbers as they stand in the metadata of a file.
pub open spec fn ticks_text(ticks: Seq<u64>) -> Seq<char> {
    seq!['['] + joined(ticks) + seq![']']
}

/// Edge ticks as they stand in the metadata of a file.
pub fn kp_ticks_text(ticks: &Vec<u64>) -> (r: String)
    ensures
        r@ == ticks_text(ticks@),
{
    proof {
        reveal_strlit("[");
        reveal_strlit("]");
        reveal_strlit(",");
    }
    let mut out = String::new();
    out.append("[");
    assert(out@ =~= seq!['['] + joined(ticks@.take(0)));
    for i in 0..ticks.len()
        invariant
            out@ == seq!['['] + joined(ticks@.take(i as int)),
            ","@ == seq![','],
    {
        let ghost before = ticks@.take(i as int);
        let ghost now = ticks@.take(i + 1);
        assert(now.drop_last() =~= before);
        if i > 0 {
            out.append(",");
        }
        append_decimal(&mut out, ticks[i]);
        assert(out@ =~= seq!['['] + joined(now));
    }
    assert(ticks@.take(ticks@.len() as int) =~= ticks@);
    out.append("]");
    assert(out@ =~= ticks_text(ticks@));
    out
}

pub open spec fn is_bracket(c: char) -> bool {
    c == '[' || c == ']'
}

pub open spec fn strip_front(s: Seq<char>) -> Seq<char>
    decreases s.len(),
{
    if s.len() > 0 && is_bracket(s[0]) {
        strip_front(s.skip(1))
    } else {
        s
    }
}

pub open spec fn strip_back(s: Seq<char>) -> Seq<char>
    decreases s.len(),
{
    if s.len() > 0 && is_bracket(s.last()) {
        strip_back(s.drop_last())
    } else {
        s
    }
}

/// The text without the brackets at both ends.
pub open spec fn unbracketed(s: Seq<char>) -> Seq<char> {
    strip_back(strip_front(s))
}

/// The text cut up at its commas.
pub open spec fn pieces(s: Seq<char>) -> Seq<Seq<char>>
    decreases s.len(),
{
    if s.len() == 0 {
        seq![seq![]]
    } else {
        let p = pieces(s.drop_last());
        if s.last() == ',' {
            p.push(seq![])
        } else {
            p.drop_last().push(p.last().push(s.last()))
        }
    }
}

/// The numbers that pieces of text stand for; empty pieces are passed over. `None`
/// if a piece is no number.
pub open spec fn numbers(p: Seq<Seq<char>>) -> Option<Seq<u64>>
    decreases p.len(),
{
    if p.len() == 0 {
        Some(seq![])
    } else {
        match numbers(p.drop_last()) {
            None => None,
            Some(t) => if p.last().len() == 0 {
                Some(t)
            } else {
                match number(trimmed(p.last()), u64::MAX as nat) {
                    Some(v) => Some(t.push(v as u64)),
                    None => None,
                }
            },
        }
    }
}

/// The numbers in a text from the metadata of a file.
pub open spec fn ticks_in(s: Seq<char>) -> Option<Seq<u64>> {
    numbers(pieces(unbracketed(s)))
}

proof fn lemma_pieces_nonempty(s: Seq<char>)
    ensures
        pieces(s).len() > 0,
    decreases s.len(),
{
    if s.len() > 0 {
        lemma_pieces_nonempty(s.drop_last());
    }
}

/// Brackets are taken away at both ends, all of them and nothing else: what is left stands
/// between two places of the text, has no bracket at its ends, and there is nothing but
/// brackets outside.
pub proof fn law_unbracketed(s: Seq<char>) -> (at: (int, int))
    ensures
        0 <= at.0 <= at.1 <= s.len(),
        unbracketed(s) == s.subrange(at.0, at.1),
        forall|i: int|
            #![trigger s[i]]
            0 <= i < at.0 || at.1 <= i < s.len() ==> s[i] == '[' || s[i] == ']',
        at.0 < at.1 ==> s[at.0] != '[' && s[at.0] != ']' && s[at.1 - 1] != '[' && s[at.1 - 1]
            != ']',
{
    let a = lemma_strip_front(s);
    let t = strip_front(s);
    let b = lemma_strip_back(t);
    assert(unbracketed(s) =~= s.subrange(a, a + b));
    assert forall|i: int| #![trigger s[i]] 0 <= i < a || a + b <= i < s.len() implies s[i] == '['
        || s[i] == ']' by {
        if i >= a {
            assert(t[i - a] == s[i]);
        }
    }
    if b > 0 {
        assert(t[b - 1] == s[a + b - 1]);
        assert(t[0] == s[a]);
    }
    (a, a + b)
}

proof fn lemma_strip_front(s: Seq<char>) -> (a: int)
    ensures
        0 <= a <= s.len(),
        strip_front(s) == s.skip(a),
        forall|i: int| 0 <= i < a ==> is_bracket(#[trigger] s[i]),
        a < s.len() ==> !is_bracket(s[a]),
    decreases s.len(),
{
    if s.len() > 0 && is_bracket(s[0]) {
        let b = lemma_strip_front(s.skip(1));
        assert(s.skip(1).skip(b) =~= s.skip(b + 1));
        assert forall|i: int| 0 <= i < b + 1 implies is_bracket(#[trigger] s[i]) by {
            if i > 0 {
                assert(s.skip(1)[i - 1] == s[i]);
            }
        }
        b + 1
    } else {
        assert(s.skip(0) =~= s);
        0
    }
}

proof fn lemma_strip_back(s: Seq<char>) -> (b: int)
    ensures
        0 <= b <= s.len(),
        strip_back(s) == s.take(b),
        forall|i: int| b <= i < s.len() ==> is_bracket(#[trigger] s[i]),
        b > 0 ==> !is_bracket(s[b - 1]),
    decreases s.len(),
{
    if s.len() > 0 && is_bracket(s.last()) {
        let t = s.drop_last();
        let b = lemma_strip_back(t);
        assert(t.take(b) =~= s.take(b));
        assert forall|i: int| b <= i < s.len() implies is_bracket(#[trigger] s[i]) by {
            if i < t.len() {
                assert(t[i] == s[i]);
            }
        }
        b
    } else {
        assert(s.take(s.len() as int) =~= s);
        s.len() as int
    }
}

/// Pieces of text with commas between them.
pub open spec fn rejoined(p: Seq<Seq<char>>) -> Seq<char>
    decreases p.len(),
{
    if p.len() == 0 {
        seq![]
    } else if p.len() == 1 {
        p[0]
    } else {
        rejoined(p.drop_last()) + seq![','] + p.last()
    }
}

/// Cutting a text up at its commas loses nothing: with commas between them the pieces are the
/// text again, and no piece has a comma.
pub proof fn law_pieces_make_up_the_text(s: Seq<char>)
    ensures
        pieces(s).len() > 0,
        rejoined(pieces(s)) == s,
        forall|i: int|
            #![trigger pieces(s)[i]]
            0 <= i < pieces(s).len() ==> !pieces(s)[i].contains(','),
    decreases s.len(),
{
    let p = pieces(s);
    if s.len() > 0 {
        let t = s.drop_last();
        let q = pieces(t);
        law_pieces_make_up_the_text(t);
        assert(s =~= t.push(s.last()));
        if s.last() == ',' {
            assert(p.drop_last() =~= q);
            assert(rejoined(p) =~= t + seq![','] + p.last());
            assert forall|i: int| #![trigger p[i]] 0 <= i < p.len() implies !p[i].contains(',') by {
                if i < q.len() {
                    assert(p[i] == q[i]);
                }
            }
        } else {
            assert(p.drop_last() =~= q.drop_last());
            assert(q.last() == q[q.len() - 1]);
            if q.len() == 1 {
                assert(rejoined(p) =~= q[0].push(s.last()));
            } else {
                assert(rejoined(p) =~= rejoined(q).push(s.last()));
            }
            assert forall|i: int| #![trigger p[i]] 0 <= i < p.len() implies !p[i].contains(',') by {
                if i < q.len() - 1 {
                    assert(p[i] == q[i]);
                } else if p[i].contains(',') {
                    let k = choose|k: int| 0 <= k < p[i].len() && p[i][k] == ',';
                    assert(q[i][k] == ',');
                    assert(q[i].contains(','));
                }
            }
        }
    }
}

/// Pieces are read one by one: there are numbers if and only if every piece that is not empty
/// is one, and they come in the order of the pieces.
pub proof fn law_numbers_of_pieces(a: Seq<Seq<char>>, b: Seq<Seq<char>>)
    ensures
        numbers(a + b) is Some <==> numbers(a) is Some && numbers(b) is Some,
        numbers(a + b) is Some ==> numbers(a + b)->0 == numbers(a)->0 + numbers(b)->0,
    decreases b.len(),
{
    if b.len() == 0 {
        assert(a + b =~= a);
        if numbers(a) is Some {
            assert(numbers(a)->0 + numbers(b)->0 =~= numbers(a)->0);
        }
    } else {
        let c = b.drop_last();
        assert((a + b).drop_last() =~= a + c);
        assert((a + b).last() == b.last());
        law_numbers_of_pieces(a, c);
        if numbers(a + b) is Some {
            assert(numbers(a + b)->0 =~= numbers(a)->0 + numbers(b)->0);
        }
    }
}

/// A piece stands for one number, the text without the white space around it; an empty piece
/// stands for none.
pub proof fn law_number_of_a_piece(p: Seq<char>)
    ensures
        numbers(seq![seq![]]) == Some(Seq::<u64>::empty()),
        p.len() > 0 ==> (numbers(seq![p]) is Some <==> number(trimmed(p), u64::MAX as nat) is Some),
        p.len() > 0 && numbers(seq![p]) is Some ==> {
            &&& numbers(seq![p])->0.len() == 1
            &&& Some(numbers(seq![p])->0[0] as nat) == number(trimmed(p), u64::MAX as nat)
        },
{
    reveal_with_fuel(numbers, 2);
    assert(seq![p].drop_last() =~= seq![]);
    let e: Seq<Seq<char>> = seq![seq![]];
    assert(e.drop_last() =~= seq![]);
    assert(e.last().len() == 0);
}

/// A piece that a comma has ended stays as it is.
proof fn lemma_pieces_prefix(s: Seq<char>, k: int)
    requires
        0 <= k <= s.len(),
    ensures
        pieces(s.take(k)).len() <= pieces(s).len(),
        pieces(s).take(pieces(s.take(k)).len() - 1) == pieces(s.take(k)).drop_last(),
        pieces(s.take(k)).len() > 0,
    decreases s.len(),
{
    lemma_pieces_nonempty(s.take(k));
    if k == s.len() {
        assert(s.take(k) =~= s);
        assert(pieces(s).take(pieces(s).len() - 1) =~= pieces(s).drop_last());
    } else {
        lemma_pieces_prefix(s.drop_last(), k);
        assert(s.drop_last().take(k) =~= s.take(k));
        lemma_pieces_nonempty(s.drop_last());
        assert(pieces(s).take(pieces(s.take(k)).len() - 1) =~= pieces(s.take(k)).drop_last());
    }
}

proof fn lemma_numbers_prefix(p: Seq<Seq<char>>, k: int)
    requires
        0 <= k <= p.len(),
        numbers(p.take(k)) is None,
    ensures
        numbers(p) is None,
    decreases p.len(),
{
    if k == p.len() {
        assert(p.take(k) =~= p);
    } else {
        assert(p.drop_last().take(k) =~= p.take(k));
        lemma_numbers_prefix(p.drop_last(), k);
    }
}

fn bracket_bounds(s: &[char]) -> (r: (usize, usize))
    ensures
        r.0 <= r.1 <= s@.len(),
        s@.subrange(r.0 as int, r.1 as int) == unbracketed(s@),
{
    let n: usize = s.len();
    let mut a: usize = 0;
    assert(s@.subrange(0, n as int) =~= s@);
    while a < n && (s[a] == '[' || s[a] == ']')
        invariant
            a <= n == s@.len(),
            strip_front(s@.subrange(a as int, n as int)) == strip_front(s@),
        decreases n - a,
    {
        assert(s@.subrange(a as int, n as int).skip(1) =~= s@.subrange(a + 1, n as int));
        a = a + 1;
    }
    let ghost front = s@.subrange(a as int, n as int);
    let mut b: usize = n;
    while b > a && (s[b - 1] == '[' || s[b - 1] == ']')
        invariant
            a <= b <= n == s@.len(),
            front == s@.subrange(a as int, n as int),
            strip_back(s@.subrange(a as int, b as int)) == strip_back(front),
        decreases b,
    {
        assert(s@.subrange(a as int, b as int).drop_last() =~= s@.subrange(a as int, b - 1));
        b = b - 1;
    }
    (a, b)
}

/// Puts the number that a piece stands for behind the others. Returns whether the
/// piece is empty or a number.
fn take_piece(s: &[char], from: usize, to: usize, ticks: &mut Vec<u64>) -> (ok: bool)
    requires
        from <= to <= s@.len(),
    ensures
        ({
            let piece = s@.subrange(from as int, to as int);
            let v = number(trimmed(piece), u64::MAX as nat);
            &&& ok == (piece.len() == 0 || v is Some)
            &&& final(ticks)@ == if piece.len() > 0 && v is Some {
                old(ticks)@.push(v->0 as u64)
            } else {
                old(ticks)@
            }
        }),
{
    if from == to {
        return true;
    }
    let (a, b) = trim_bounds(s, from, to);
    match parse_number(s, a, b, u64::MAX) {
        Some(v) => {
            ticks.push(v);
            true
        },
        None => false,
    }
}

/// Reads edge ticks from the metadata of a file; `None` if there is anything but
/// numbers among them.
pub fn parse_kp_ticks(text: &str) -> (r: Option<Vec<u64>>)
    ensures
        match r {
            Some(t) => ticks_in(text@) == Some(t@),
            None => ticks_in(text@) is None,
        },
{
    let chars = chars_of(text);
    let s: &[char] = chars.as_slice();
    let (a, b) = bracket_bounds(s);
    let ghost body = unbracketed(text@);
    let mut ticks: Vec<u64> = Vec::new();
    let mut start: usize = a;
    let mut i: usize = a;
    proof {
        assert(body.take(0) =~= seq![]);
        assert(pieces(seq![]).drop_last() =~= seq![]);
        assert(s@.subrange(a as int, a as int) =~= seq![]);
    }
    while i < b
        invariant
            a <= start <= i <= b <= s@.len(),
            body == s@.subrange(a as int, b as int),
            body == unbracketed(text@),
            pieces(body.take(i - a)).len() > 0,
            pieces(body.take(i - a)).last() == s@.subrange(start as int, i as int),
            numbers(pieces(body.take(i - a)).drop_last()) == Some(ticks@),
        decreases b - i,
    {
        let ghost p = pieces(body.take(i - a));
        let ghost q = pieces(body.take(i + 1 - a));
        assert(body.take(i + 1 - a).drop_last() =~= body.take(i - a));
        assert(body.take(i + 1 - a).last() == s@[i as int]);
        if s[i] == ',' {
            assert(q.drop_last() =~= p);
            if !take_piece(s, start, i, &mut ticks) {
                proof {
                    assert(numbers(p) is None);
                    lemma_pieces_prefix(body, i + 1 - a);
                    lemma_numbers_prefix(pieces(body), p.len() as int);
                }
                return None;
            }
            start = i + 1;
            assert(s@.subrange(start as int, i + 1) =~= seq![]);
        } else {
            assert(q.drop_last() =~= p.drop_last());
            assert(q.last() =~= s@.subrange(start as int, i + 1));
        }
        i = i + 1;
    }
    assert(body.take(b - a) =~= body);
    if !take_piece(s, start, b, &mut ticks) {
        return None;
    }
    Some(ticks)
}

proof fn lemma_pieces_append(s: Seq<char>, d: Seq<char>)
    requires
        forall|i: int| 0 <= i < d.len() ==> #[trigger] d[i] != ',',
    ensures
        pieces(s + d) == pieces(s).drop_last().push(pieces(s).last() + d),
    decreases d.len(),
{
    lemma_pieces_nonempty(s);
    if d.len() == 0 {
        assert(s + d =~= s);
        assert(pieces(s).last() + d =~= pieces(s).last());
        assert(pieces(s).drop_last().push(pieces(s).last()) =~= pieces(s));
    } else {
        lemma_pieces_append(s, d.drop_last());
        assert((s + d).drop_last() =~= s + d.drop_last());
        let p = pieces(s + d.drop_last());
        assert(p.last() == pieces(s).last() + d.drop_last());
        assert(p.last().push(d.last()) =~= pieces(s).last() + d);
        assert(p.drop_last() =~= pieces(s).drop_last());
    }
}

proof fn lemma_decimal_digits(n: nat)
    ensures
        decimal(n).len() > 0,
        forall|i: int| 0 <= i < decimal(n).len() ==> is_digit(#[trigger] decimal(n)[i]),
    decreases n,
{
    if n >= 10 {
        lemma_decimal_digits(n / 10);
    }
}

proof fn lemma_numbers_joined(ticks: Seq<u64>)
    ensures
        numbers(pieces(joined(ticks))) == Some(ticks),
        joined(ticks).len() > 0 ==> is_digit(joined(ticks)[0]) && is_digit(joined(ticks).last()),
        ticks.len() > 0 ==> joined(ticks).len() > 0,
    decreases ticks.len(),
{
    reveal_with_fuel(numbers, 2);
    if ticks.len() == 0 {
        assert(pieces(joined(ticks)).drop_last() =~= seq![]);
    } else {
        let d = decimal(ticks.last() as nat);
        lemma_decimal_digits(ticks.last() as nat);
        crate::text::law_decimal_read_back(ticks.last() as nat, u64::MAX as nat);
        assert(trimmed(d) == d) by {
            reveal_with_fuel(crate::text::trim_start, 1);
            reveal_with_fuel(crate::text::trim_end, 1);
            assert(is_digit(d[0]) && is_digit(d[d.len() - 1]));
        }
        if ticks.len() == 1 {
            lemma_pieces_append(seq![], d);
            assert(Seq::<char>::empty() + d =~= d);
            assert(pieces(seq![]).last() + d =~= d);
            assert(pieces(d).drop_last() =~= seq![]);
            assert(ticks =~= seq![ticks.last()]);
        } else {
            let front = joined(ticks.drop_last());
            lemma_numbers_joined(ticks.drop_last());
            let head = front + seq![','];
            assert(head.drop_last() =~= front);
            lemma_pieces_append(head, d);
            assert(pieces(head).last() + d =~= d);
            assert(pieces(head + d).drop_last() =~= pieces(front));
            assert(ticks.drop_last().push(ticks.last()) =~= ticks);
            assert(joined(ticks) == head + d);
        }
    }
}

/// Edge ticks that were written are read back.
pub proof fn law_ticks_read_back(ticks: Seq<u64>)
    ensures
        ticks_in(ticks_text(ticks)) == Some(ticks),
{
    let j = joined(ticks);
    let s = ticks_text(ticks);
    lemma_numbers_joined(ticks);
    reveal_with_fuel(strip_front, 3);
    reveal_with_fuel(strip_back, 3);
    assert(s.skip(1) =~= j + seq![']']);
    if j.len() > 0 {
        let t = j + seq![']'];
        assert(t[0] == j[0]);
        assert(t.drop_last() =~= j);
        assert(unbracketed(s) == j);
    } else {
        assert(s.skip(1).skip(1) =~= seq![]);
        assert(unbracketed(s) =~= j);
    }
}

// ---------------------------------------------------------------------------
// Metadata
// ---------------------------------------------------------------------------

/// An entry of the metadata of a file.
pub struct MetaEntry {
    pub key: String,
    pub value: Option<String>,
}

#[verifier::ext_equal]
pub ghost struct MetaView {
    pub key: Seq<char>,
    pub value: Option<Seq<char>>,
}

impl View for MetaEntry {
    type V = MetaView;

    open spec fn view(&self) -> MetaView {
        MetaView {
            key: self.key@,
            value: match self.value {
                Some(v) => Some(v@),
                None => None,
            },
        }
    }
}

pub open spec fn meta_views(m: Seq<MetaEntry>) -> Seq<MetaView> {
    m.map_values(|x: MetaEntry| x@)
}

/// The value of the first entry with a key.
pub open spec fn meta_value(m: Seq<MetaView>, key: Seq<char>) -> Option<Seq<char>>
    decreases m.len(),
{
    if m.len() == 0 {
        None
    } else if m[0].key == key {
        m[0].value
    } else {
        meta_value(m.skip(1), key)
    }
}

/// The value of the first entry with a key.
pub fn parquet_meta_str<'a>(entries: &'a Vec<MetaEntry>, key: &str) -> (r: Option<&'a str>)
    ensures
        match r {
            Some(v) => meta_value(meta_views(entries@), key@) == Some(v@),
            None => meta_value(meta_views(entries@), key@) is None,
        },
{
    let wanted = String::from_str(key);
    let ghost m = meta_views(entries@);
    assert(m.skip(0) =~= m);
    for i in 0..entries.len()
        invariant
            wanted@ == key@,
            m == meta_views(entries@),
            meta_value(m, key@) == meta_value(m.skip(i as int), key@),
    {
        assert(m.skip(i as int)[0] == entries@[i as int]@);
        assert(m.skip(i as int).skip(1) =~= m.skip(i + 1));
        if entries[i].key == wanted {
            return match &entries[i].value {
                Some(v) => Some(v.as_str()),
                None => None,
            };
        }
    }
    assert(m.skip(m.len() as int) =~= seq![]);
    None
}

/// The first entry with a key decides; without one there is no value.
pub proof fn law_first_entry_decides(m: Seq<MetaView>, key: Seq<char>, k: int)
    requires
        0 <= k <= m.len(),
        forall|i: int| 0 <= i < k ==> (#[trigger] m[i]).key != key,
    ensures
        k == m.len() ==> meta_value(m, key) is None,
        k < m.len() && m[k].key == key ==> meta_value(m, key) == m[k].value,
    decreases m.len(),
{
    if k > 0 {
        let t = m.skip(1);
        assert(m[0].key != key);
        assert forall|i: int| 0 <= i < k - 1 implies (#[trigger] t[i]).key != key by {
            assert(t[i] == m[i + 1]);
        }
        law_first_entry_decides(t, key, k - 1);
        if k < m.len() {
            assert(t[k - 1] == m[k]);
        }
    }
}

/// What the metadata of a file says.
pub struct FileInfo {
    pub sample_rate: SampleRateHz,
    /// Gain, 1 if the file does not say.
    pub pga: u8,
    pub kp_ticks: Vec<u64>,
    /// Tick of the first sample in a file without a tick column, 0 if the file does
    /// not say.
    pub start_tick: u64,
}

/// Why metadata cannot be used.
#[derive(Debug, Clone, Copy, PartialEq, Eq, Structural)]
pub enum MetaError {
    /// There is no sample rate, or it is no number of 16 bits.
    NoSampleRate,
    /// There is something other than numbers among the edge ticks.
    BadKpTicks,
}

#[verifier::ext_equal]
pub ghost struct FileInfoView {
    pub sample_rate: SampleRateHz,
    pub pga: u8,
    pub kp_ticks: Seq<u64>,
    pub start_tick: u64,
}

impl View for FileInfo {
    type V = FileInfoView;

    open spec fn view(&self) -> FileInfoView {
        FileInfoView {
            sample_rate: self.sample_rate,
            pga: self.pga,
            kp_ticks: self.kp_ticks@,
            start_tick: self.start_tick,
        }
    }
}

/// The number that an entry holds, if it holds one that does not exceed `max`.
pub open spec fn meta_number(m: Seq<MetaView>, key: Seq<char>, max: nat) -> Option<nat> {
    match meta_value(m, key) {
        Some(v) => number(v, max),
        None => None,
    }
}

fn read_number(entries: &Vec<MetaEntry>, key: &str, max: u64) -> (r: Option<u64>)
    ensures
        match r {
            Some(v) => meta_number(meta_views(entries@), key@, max as nat) == Some(v as nat),
            None => meta_number(meta_views(entries@), key@, max as nat) is None,
        },
{
    match parquet_meta_str(entries, key) {
        Some(v) => {
            let chars = chars_of(v);
            assert(chars@.subrange(0, chars@.len() as int) =~= v@);
            parse_number(chars.as_slice(), 0, chars.len(), max)
        },
        None => None,
    }
}

/// The edge ticks in the metadata, none if there is no such entry.
pub open spec fn meta_ticks(m: Seq<MetaView>) -> Option<Seq<u64>> {
    match meta_value(m, "kp_ticks"@) {
        Some(v) => ticks_in(v),
        None => Some(seq![]),
    }
}

/// What the metadata of a file says, or why it cannot be used.
pub open spec fn info_in(m: Seq<MetaView>) -> Result<FileInfoView, MetaError> {
    match meta_number(m, "sample_rate"@, u16::MAX as nat) {
        None => Err(MetaError::NoSampleRate),
        Some(rate) => match meta_ticks(m) {
            None => Err(MetaError::BadKpTicks),
            Some(kp_ticks) => Ok(
                FileInfoView {
                    sample_rate: SampleRateHz(rate as u16),
                    pga: match meta_number(m, "pga"@, u8::MAX as nat) {
                        Some(pga) => pga as u8,
                        None => 1,
                    },
                    kp_ticks,
                    start_tick: match meta_number(m, "start_tick"@, u64::MAX as nat) {
                        Some(tick) => tick as u64,
                        None => 0,
                    },
                },
            ),
        },
    }
}

/// A file without a rate of 16 bits cannot be used, nor one with anything but numbers among
/// its edge ticks; every other file can. What it does not say is gain 1, no edges, and a first
/// tick of 0, and what it says is taken as it stands.
pub proof fn law_what_metadata_says(m: Seq<MetaView>)
    ensures
        info_in(m) == Err::<FileInfoView, MetaError>(MetaError::NoSampleRate) <==> (meta_value(
            m,
            "sample_rate"@,
        ) is None || number(meta_value(m, "sample_rate"@)->0, 65535) is None),
        info_in(m) is Ok <==> info_in(m) != Err::<FileInfoView, MetaError>(MetaError::NoSampleRate)
            && (meta_value(m, "kp_ticks"@) matches Some(v) ==> ticks_in(v) is Some),
        info_in(m) matches Ok(info) ==> {
            &&& number(meta_value(m, "sample_rate"@)->0, 65535) == Some(info.sample_rate.0 as nat)
            &&& meta_value(m, "pga"@) is None ==> info.pga == 1
            &&& meta_value(m, "pga"@) matches Some(v) ==> {
                &&& number(v, 255) is Some ==> number(v, 255) == Some(info.pga as nat)
                &&& number(v, 255) is None ==> info.pga == 1
            }
            &&& meta_value(m, "kp_ticks"@) is None ==> info.kp_ticks.len() == 0
            &&& meta_value(m, "kp_ticks"@) matches Some(v) ==> ticks_in(v) == Some(info.kp_ticks)
            &&& meta_value(m, "start_tick"@) is None ==> info.start_tick == 0
            &&& meta_value(m, "start_tick"@) matches Some(v) ==> {
                &&& number(v, u64::MAX as nat) is Some ==> number(v, u64::MAX as nat) == Some(
                    info.start_tick as nat,
                )
                &&& number(v, u64::MAX as nat) is None ==> info.start_tick == 0
            }
        },
{
}

/// Reads the metadata of a file.
pub fn parse_metadata(entries: &Vec<MetaEntry>) -> (r: Result<FileInfo, MetaError>)
    ensures
        match r {
            Ok(info) => info_in(meta_views(entries@)) == Ok::<FileInfoView, MetaError>(info@),
            Err(e) => info_in(meta_views(entries@)) == Err::<FileInfoView, MetaError>(e),
        },
{
    let rate: u64 = match read_number(entries, "sample_rate", u16::MAX as u64) {
        Some(v) => v,
        None => {
            return Err(MetaError::NoSampleRate);
        },
    };
    let kp_ticks: Vec<u64> = match parquet_meta_str(entries, "kp_ticks") {
        Some(text) => match parse_kp_ticks(text) {
            Some(t) => t,
            None => {
                return Err(MetaError::BadKpTicks);
            },
        },
        None => Vec::new(),
    };
    let start_tick: u64 = match read_number(entries, "start_tick", u64::MAX) {
        Some(v) => v,
        None => 0,
    };
    let pga: u8 = match read_number(entries, "pga", u8::MAX as u64) {
        Some(v) => v as u8,
        None => 1,
    };
    let info = FileInfo { sample_rate: SampleRateHz(rate as u16), pga, kp_ticks, start_tick };
    assert(info@ =~= info_in(meta_views(entries@))->Ok_0);
    Ok(info)
}

/// The metadata that a recording is kept with.
pub open spec fn meta_of(
    rate: SampleRateHz,
    pga: u8,
    kp_ticks: Seq<u64>,
    selection: Option<Seq<char>>,
) -> Seq<MetaView> {
    let m = seq![
        MetaView { key: "sample_rate"@, value: Some(decimal(rate.0 as nat)) },
        MetaView { key: "pga"@, value: Some(decimal(pga as nat)) },
        MetaView { key: "kp_ticks"@, value: Some(ticks_text(kp_ticks)) },
    ];
    match selection {
        Some(text) => m.push(MetaView { key: "selection"@, value: Some(text) }),
        None => m,
    }
}

/// The metadata that a recording is kept with, `selection` being the text of its
/// selection.
pub fn metadata_of(rec: &Recording, selection: Option<String>) -> (r: Vec<MetaEntry>)
    ensures
        meta_views(r@) == meta_of(rec.sample_rate, rec.pga, rec.kp_ticks@, text_of(selection)),
{
    let ghost chosen = text_of(selection);
    let mut out: Vec<MetaEntry> = Vec::new();
    out.push(
        MetaEntry {
            key: String::from_str("sample_rate"),
            value: Some(decimal_text(rec.sample_rate.0 as u64)),
        },
    );
    out.push(
        MetaEntry { key: String::from_str("pga"), value: Some(decimal_text(rec.pga as u64)) },
    );
    out.push(
        MetaEntry {
            key: String::from_str("kp_ticks"),
            value: Some(kp_ticks_text(&rec.kp_ticks)),
        },
    );
    match selection {
        Some(text) => {
            out.push(MetaEntry { key: String::from_str("selection"), value: Some(text) });
        },
        None => {},
    }
    assert(meta_views(out@) =~= meta_of(rec.sample_rate, rec.pga, rec.kp_ticks@, chosen));
    out
}

/// The metadata that a recording is kept with is read back, its selection included.
pub proof fn law_metadata_read_back(
    rate: SampleRateHz,
    pga: u8,
    kp_ticks: Seq<u64>,
    selection: Option<Seq<char>>,
)
    ensures
        meta_value(meta_of(rate, pga, kp_ticks, selection), "selection"@) == selection,
        info_in(meta_of(rate, pga, kp_ticks, selection)) == Ok::<FileInfoView, MetaError>(
            FileInfoView { sample_rate: rate, pga, kp_ticks, start_tick: 0 },
        ),
{
    reveal_strlit("sample_rate");
    reveal_strlit("pga");
    reveal_strlit("kp_ticks");
    reveal_strlit("start_tick");
    reveal_strlit("selection");
    let m = meta_of(rate, pga, kp_ticks, selection);
    reveal_with_fuel(meta_value, 5);
    assert("sample_rate"@.len() == 11 && "pga"@.len() == 3 && "kp_ticks"@.len() == 8
        && "start_tick"@.len() == 10 && "selection"@.len() == 9);
    assert(m.skip(1)[0] == m[1] && m.skip(1).skip(1)[0] == m[2]);
    if selection is None {
        assert(m.skip(1).skip(1).skip(1) =~= seq![]);
    } else {
        assert(m.skip(1).skip(1).skip(1)[0] == m[3]);
        assert(m.skip(1).skip(1).skip(1).skip(1) =~= seq![]);
    }
    crate::text::law_decimal_read_back(rate.0 as nat, u16::MAX as nat);
    crate::text::law_decimal_read_back(pga as nat, u8::MAX as nat);
    law_ticks_read_back(kp_ticks);
}

// ---------------------------------------------------------------------------
// Samples
// ---------------------------------------------------------------------------

/// The columns of a file. A file without ticks is from before they were kept.
pub struct Columns {
    pub ch0: Vec<i32>,
    pub ch1: Vec<i32>,
    pub flags: Vec<u8>,
    pub ticks: Option<Vec<u64>>,
}

impl Columns {
    /// Columns of one length.
    pub open spec fn wf(&self) -> bool {
        &&& self.ch1@.len() == self.ch0@.len()
        &&& self.flags@.len() == self.ch0@.len()
        &&& self.ticks matches Some(t) ==> t@.len() == self.ch0@.len()
    }

    /// The sample in row `i`, `start` and `step` being the first tick and the ticks
    /// from row to row where the file has none.
    pub open spec fn row(&self, i: int, start: u64, step: int) -> Sample {
        Sample {
            ch0: AdcCount(self.ch0@[i]),
            ch1: AdcCount(self.ch1@[i]),
            flags: self.flags@[i],
            tick: match self.ticks {
                Some(t) => t@[i],
                None => (start + i * step) as u64,
            },
        }
    }

    /// The samples of a file.
    pub open spec fn rows(&self, start: u64, step: int) -> Seq<Sample> {
        Seq::new(self.ch0@.len(), |i: int| self.row(i, start, step))
    }
}

/// Ticks from sample to sample at a rate; without a rate, the greatest number of them.
pub open spec fn ticks_per_sample(rate: SampleRateHz) -> int {
    if rate.0 == 0 {
        u64::MAX as int
    } else {
        SYSTIMER_TICKS_PER_S as int / rate.0 as int
    }
}

/// The ticks from sample to sample are as many whole ticks as fit: a second has 16 million
/// ticks, and one tick more from sample to sample would not fit into it any more.
pub proof fn law_ticks_per_sample_fill_a_second(rate: SampleRateHz)
    requires
        rate.0 > 0,
    ensures
        rate.0 * ticks_per_sample(rate) <= 16_000_000 < rate.0 * (ticks_per_sample(rate) + 1),
{
    let r = rate.0 as int;
    let t = ticks_per_sample(rate);
    assert(r * (16_000_000int / r) <= 16_000_000 < r * (16_000_000int / r + 1)) by (nonlinear_arith)
        requires
            r > 0,
    ;
}

/// Whether the timer holds the ticks of `n` samples at a rate, the first of them at
/// `start`.
pub open spec fn ticks_fit(start: u64, n: nat, rate: SampleRateHz) -> bool {
    n > 0 ==> start + (n - 1) * ticks_per_sample(rate) <= u64::MAX
}

/// The ticks of samples fit if and only if the last of them does, up to the greatest tick there
/// is: one sample always fits, and one more fits if there is room for another step.
pub proof fn law_ticks_fit_step_by_step(start: u64, n: nat, rate: SampleRateHz)
    requires
        n > 0,
    ensures
        ticks_fit(start, 0, rate),
        ticks_fit(start, 1, rate),
        ticks_fit(start, n + 1, rate) <==> start + n * ticks_per_sample(rate) < 0x1_0000_0000_0000_0000,
        ticks_fit(start, n + 1, rate) ==> ticks_fit(start, n, rate),
{
    let step = ticks_per_sample(rate);
    assert(0 * step == 0);
    assert((n - 1) * step <= n * step) by (nonlinear_arith)
        requires
            step >= 0,
            n > 0,
    ;
}

fn sample_step(rate: SampleRateHz) -> (r: u64)
    ensures
        r == ticks_per_sample(rate),
{
    if rate.0 == 0 {
        u64::MAX
    } else {
        SYSTIMER_TICKS_PER_S / rate.0 as u64
    }
}

/// Whether the timer holds the ticks that the samples of a file without ticks are given.
pub fn rebuilt_ticks_fit(start: u64, n: usize, rate: SampleRateHz) -> (r: bool)
    ensures
        r == ticks_fit(start, n as nat, rate),
{
    if n == 0 {
        return true;
    }
    let step: u64 = sample_step(rate);
    let room: u64 = u64::MAX - start;
    assert(start + (n - 1) * step <= u64::MAX <==> (n - 1) * step <= room);
    match (n as u64 - 1).checked_mul(step) {
        Some(span) => span <= room,
        None => false,
    }
}

/// The samples of a file.
pub fn samples_of_columns(columns: &Columns, rate: SampleRateHz, start_tick: u64) -> (r: Vec<
    Sample,
>)
    requires
        columns.wf(),
        columns.ticks is None ==> ticks_fit(start_tick, columns.ch0@.len(), rate),
    ensures
        r@ == columns.rows(start_tick, ticks_per_sample(rate)),
{
    let step: u64 = sample_step(rate);
    let mut out: Vec<Sample> = Vec::new();
    let mut tick: u64 = start_tick;
    let n: usize = columns.ch0.len();
    assert(0 * step == 0) by (nonlinear_arith);
    for i in 0..n
        invariant
            n == columns.ch0@.len(),
            columns.wf(),
            step == ticks_per_sample(rate),
            columns.ticks is None ==> ticks_fit(start_tick, n as nat, rate),
            columns.ticks is None && i < n ==> tick == start_tick + i * step,
            out@ == columns.rows(start_tick, step as int).take(i as int),
    {
        let t: u64 = match &columns.ticks {
            Some(ticks) => ticks[i],
            None => tick,
        };
        out.push(
            Sample {
                ch0: AdcCount(columns.ch0[i]),
                ch1: AdcCount(columns.ch1[i]),
                flags: columns.flags[i],
                tick: t,
            },
        );
        if columns.ticks.is_none() && i + 1 < n {
            assert((i + 1) * step <= (n - 1) * step && i * step + step == (i + 1) * step)
                by (nonlinear_arith)
                requires
                    i + 1 <= n - 1,
                    step >= 0,
            ;
            tick = tick + step;
        }
        assert(out@ =~= columns.rows(start_tick, step as int).take(i + 1));
    }
    assert(out@ =~= columns.rows(start_tick, ticks_per_sample(rate)));
    out
}

/// Whether columns hold samples, each field of each of them, in order.
pub open spec fn columns_hold(c: Columns, samples: Seq<Sample>) -> bool {
    &&& c.wf()
    &&& c.ticks is Some
    &&& c.ch0@.len() == samples.len()
    &&& forall|i: int|
        #![trigger samples[i]]
        0 <= i < samples.len() ==> samples[i] == (Sample {
            ch0: AdcCount(c.ch0@[i]),
            ch1: AdcCount(c.ch1@[i]),
            flags: c.flags@[i],
            tick: c.ticks->0@[i],
        })
}

/// The columns that the samples of a recording are kept in.
pub fn columns_of_samples(samples: &Vec<Sample>) -> (c: Columns)
    ensures
        columns_hold(c, samples@),
{
    let mut ch0: Vec<i32> = Vec::new();
    let mut ch1: Vec<i32> = Vec::new();
    let mut flags: Vec<u8> = Vec::new();
    let mut ticks: Vec<u64> = Vec::new();
    for i in 0..samples.len()
        invariant
            ch0@.len() == i,
            ch1@.len() == i,
            flags@.len() == i,
            ticks@.len() == i,
            forall|j: int|
                #![trigger samples@[j]]
                0 <= j < i ==> samples@[j] == (Sample {
                    ch0: AdcCount(ch0@[j]),
                    ch1: AdcCount(ch1@[j]),
                    flags: flags@[j],
                    tick: ticks@[j],
                }),
    {
        let s: Sample = samples[i];
        ch0.push(s.ch0.0);
        ch1.push(s.ch1.0);
        flags.push(s.flags);
        ticks.push(s.tick);
    }
    Columns { ch0, ch1, flags, ticks: Some(ticks) }
}

/// The recording that a file holds, or why its metadata cannot be used.
pub open spec fn recording_in(
    m: Seq<MetaView>,
    c: Columns,
    filename: Seq<char>,
    selection: Option<Selection>,
) -> Result<RecordingView, MetaError> {
    match info_in(m) {
        Ok(info) => Ok(
            RecordingView {
                samples: c.rows(info.start_tick, ticks_per_sample(info.sample_rate)),
                sample_rate: info.sample_rate,
                pga: info.pga,
                kp_ticks: info.kp_ticks,
                filename,
                selection,
            },
        ),
        Err(e) => Err(e),
    }
}

/// Puts a recording together from its file.
pub fn load_recording(
    entries: &Vec<MetaEntry>,
    columns: &Columns,
    filename: String,
    selection: Option<Selection>,
) -> (r: Result<Recording, MetaError>)
    requires
        columns.wf(),
        info_in(meta_views(entries@)) matches Ok(info) ==> (columns.ticks is None ==> ticks_fit(
            info.start_tick,
            columns.ch0@.len(),
            info.sample_rate,
        )),
    ensures
        match r {
            Ok(rec) => recording_in(meta_views(entries@), *columns, filename@, selection) == Ok::<
                RecordingView,
                MetaError,
            >(rec@),
            Err(e) => recording_in(meta_views(entries@), *columns, filename@, selection) == Err::<
                RecordingView,
                MetaError,
            >(e),
        },
{
    match parse_metadata(entries) {
        Err(e) => Err(e),
        Ok(info) => {
            let samples = samples_of_columns(columns, info.sample_rate, info.start_tick);
            let rec = Recording {
                samples,
                sample_rate: info.sample_rate,
                pga: info.pga,
                kp_ticks: info.kp_ticks,
                filename,
                selection,
            };
            assert(rec@ =~= (RecordingView {
                samples: columns.rows(info@.start_tick, ticks_per_sample(info@.sample_rate)),
                sample_rate: info@.sample_rate,
                pga: info@.pga,
                kp_ticks: info@.kp_ticks,
                filename: filename@,
                selection,
            }));
            Ok(rec)
        },
    }
}

/// The rows that the samples of a recording are kept in are the samples, whatever
/// the first tick and the step would be taken to be.
pub proof fn law_columns_read_back(samples: Seq<Sample>, c: Columns, start: u64, step: int)
    requires
        columns_hold(c, samples),
    ensures
        c.rows(start, step) == samples,
{
    assert(c.rows(start, step) =~= samples);
}

/// A recording that is kept is read back. `names` are the files that there are before,
/// `c` and `selection` the columns and the text of the range that the recording is kept
/// with, and `chosen` what that text stands for. The new file has a number above that of
/// every file there is, 0 if there is none, and a name that none of them has; its metadata
/// holds the text of the range; and what it holds is the recording with the file's name and
/// the range that was kept.
pub proof fn law_recording_read_back(
    rec: RecordingView,
    names: Seq<Seq<char>>,
    c: Columns,
    selection: Option<Seq<char>>,
    chosen: Option<Selection>,
)
    requires
        columns_hold(c, rec.samples),
        next_index(names) <= usize::MAX,
    ensures
        ({
            let n = next_index(names);
            let name = file_name_of(n);
            let m = meta_of(rec.sample_rate, rec.pga, rec.kp_ticks, selection);
            &&& file_number(name, usize::MAX as nat) == Some(n)
            &&& forall|i: int|
                #![trigger names[i]]
                0 <= i < names.len() ==> names[i] != name && (file_number(
                    names[i],
                    usize::MAX as nat,
                ) matches Some(k) ==> k < n)
            &&& (forall|i: int|
                #![trigger names[i]]
                0 <= i < names.len() ==> file_number(names[i], usize::MAX as nat) is None) ==> n
                == 0
            &&& meta_value(m, "selection"@) == selection
            &&& recording_in(m, c, name, chosen) == Ok::<RecordingView, MetaError>(
                RecordingView { filename: name, selection: chosen, ..rec },
            )
        }),
{
    let n = next_index(names);
    law_file_name_read_back(n, usize::MAX as nat);
    assert forall|i: int|
        #![trigger names[i]]
        0 <= i < names.len() implies names[i] != file_name_of(n) && (file_number(
        names[i],
        usize::MAX as nat,
    ) matches Some(k) ==> k < n) by {
        lemma_next_index_above(names, i);
        law_next_name_is_new(names, i);
    }
    if forall|i: int|
        #![trigger names[i]]
        0 <= i < names.len() ==> file_number(names[i], usize::MAX as nat) is None {
        lemma_no_numbers(names);
    }
    law_metadata_read_back(rec.sample_rate, rec.pga, rec.kp_ticks, selection);
    law_columns_read_back(rec.samples, c, 0, ticks_per_sample(rec.sample_rate));
}

proof fn lemma_no_numbers(names: Seq<Seq<char>>)
    requires
        forall|i: int|
            #![trigger names[i]]
            0 <= i < names.len() ==> file_number(names[i], usize::MAX as nat) is None,
    ensures
        next_index(names) == 0,
    decreases names.len(),
{
    if names.len() > 0 {
        let front = names.drop_last();
        assert forall|i: int| #![trigger front[i]] 0 <= i < front.len() implies file_number(
            front[i],
            usize::MAX as nat,
        ) is None by {
            assert(front[i] == names[i]);
        }
        lemma_no_numbers(front);
        assert(names[names.len() - 1] == names.last());
    }
}

/// There is a sample for every row, with the numbers of that row; in a file without ticks the
/// first has the tick that the file starts at.
pub proof fn law_rows_are_samples(c: Columns, start: u64, step: int, i: int)
    requires
        c.wf(),
        0 <= i < c.ch0@.len(),
    ensures
        c.rows(start, step).len() == c.ch0@.len(),
        c.rows(start, step)[i].ch0.0 == c.ch0@[i],
        c.rows(start, step)[i].ch1.0 == c.ch1@[i],
        c.rows(start, step)[i].flags == c.flags@[i],
        c.ticks matches Some(t) ==> c.rows(start, step)[i].tick == t@[i],
        c.ticks is None ==> c.rows(start, step)[0].tick == start,
{
    assert(0 * step == 0);
}

/// In a file without ticks the samples are evenly spaced.
pub proof fn law_rebuilt_ticks_are_even(c: Columns, start: u64, rate: SampleRateHz, i: int)
    requires
        c.wf(),
        c.ticks is None,
        0 <= i,
        i + 1 < c.ch0@.len(),
        ticks_fit(start, c.ch0@.len(), rate),
    ensures
        c.rows(start, ticks_per_sample(rate))[i + 1].tick - c.rows(
            start,
            ticks_per_sample(rate),
        )[i].tick == ticks_per_sample(rate),
{
    let step = ticks_per_sample(rate);
    let n = c.ch0@.len() as int;
    assert(step >= 0);
    assert(0 <= i * step && (i + 1) * step == i * step + step && (i + 1) * step <= (n - 1) * step)
        by (nonlinear_arith)
        requires
            0 <= i,
            i + 1 < n,
            step >= 0,
    ;
}

} // verus!
