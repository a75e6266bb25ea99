//! Numbers as text, and the little parsing that stored text needs.

use vstd::prelude::*;

verus! {

// ---------------------------------------------------------------------------
// Characters
// ---------------------------------------------------------------------------

pub open spec fn is_digit(c: char) -> bool {
    '0' <= c <= '9'
}

pub open spec fn digit_value(c: char) -> nat {
    (c as u32 - '0' as u32) as nat
}

/// The decimal digit that stands for `d`.
pub open spec fn digit_char(d: nat) -> char {
    ('0' as u32 + d) as char
}

/// The characters with the Unicode property `White_Space`.
pub open spec fn is_white_space(c: char) -> bool {
    let u = c as u32;
    ||| 0x09 <= u <= 0x0D
    ||| u == 0x20
    ||| u == 0x85
    ||| u == 0xA0
    ||| u == 0x1680
    ||| 0x2000 <= u <= 0x200A
    ||| u == 0x2028
    ||| u == 0x2029
    ||| u == 0x202F
    ||| u == 0x205F
    ||| u == 0x3000
}

/// Whether a character is white space.
pub fn white_space(c: char) -> (r: bool)
    ensures
        r == is_white_space(c),
{
    let u: u32 = c as u32;
    (0x09 <= u && u <= 0x0D) || u == 0x20 || u == 0x85 || u == 0xA0 || u == 0x1680 || (0x2000 <= u
        && u <= 0x200A) || u == 0x2028 || u == 0x2029 || u == 0x202F || u == 0x205F || u == 0x3000
}

/// The text of a string that may be missing.
pub open spec fn text_of(s: Option<String>) -> Option<Seq<char>> {
    match s {
        Some(s) => Some(s@),
        None => None,
    }
}

/// The characters of a text.
pub fn chars_of(s: &str) -> (r: Vec<char>)
    ensures
        r@ == s@,
{
    let mut out: Vec<char> = Vec::new();
    for c in it: s.chars()
        invariant
            out@ == it.seq().take(it.index() as int),
            it.seq() == s@,
    {
        out.push(c);
        assert(out@ =~= it.seq().take(it.index() as int + 1));
    }
    assert(out@ =~= s@);
    out
}

/// The text without the white space at both ends.
pub open spec fn trimmed(s: Seq<char>) -> Seq<char> {
    trim_end(trim_start(s))
}

pub open spec fn trim_start(s: Seq<char>) -> Seq<char>
    decreases s.len(),
{
    if s.len() > 0 && is_white_space(s[0]) {
        trim_start(s.skip(1))
    } else {
        s
    }
}

pub open spec fn trim_end(s: Seq<char>) -> Seq<char>
    decreases s.len(),
{
    if s.len() > 0 && is_white_space(s.last()) {
        trim_end(s.drop_last())
    } else {
        s
    }
}

/// Where the text between the white space starts and ends.
pub(crate) fn trim_bounds(s: &[char], from: usize, to: usize) -> (r: (usize, usize))
    requires
        from <= to <= s@.len(),
    ensures
        from <= r.0 <= r.1 <= to,
        s@.subrange(r.0 as int, r.1 as int) == trimmed(s@.subrange(from as int, to as int)),
{
    let ghost whole = s@.subrange(from as int, to as int);
    let mut a: usize = from;
    while a < to && white_space(s[a])
        invariant
            from <= a <= to <= s@.len(),
            whole == s@.subrange(from as int, to as int),
            trim_start(s@.subrange(a as int, to as int)) == trim_start(whole),
        decreases to - a,
    {
        assert(s@.subrange(a as int, to as int).skip(1) =~= s@.subrange(a + 1, to as int));
        a = a + 1;
    }
    let ghost front = s@.subrange(a as int, to as int);
    assert(trim_start(front) == front);
    let mut b: usize = to;
    while b > a && white_space(s[b - 1])
        invariant
            from <= a <= b <= to <= s@.len(),
            front == s@.subrange(a as int, to as int),
            trim_end(s@.subrange(a as int, b as int)) == trim_end(front),
        decreases b,
    {
        assert(s@.subrange(a as int, b as int).drop_last() =~= s@.subrange(a as int, b - 1));
        b = b - 1;
    }
    (a, b)
}

/// Whether a text has nothing but white space.
pub fn is_blank(s: &str) -> (r: bool)
    ensures
        r == (trimmed(s@).len() == 0),
{
    let chars = chars_of(s);
    let (a, b) = trim_bounds(chars.as_slice(), 0, chars.len());
    assert(s@.subrange(0, s@.len() as int) =~= s@);
    a == b
}

// ---------------------------------------------------------------------------
// Writing numbers
// ---------------------------------------------------------------------------

/// A number in decimal.
pub open spec fn decimal(n: nat) -> Seq<char>
    decreases n,
{
    if n < 10 {
        seq![digit_char(n)]
    } else {
        decimal(n / 10).push(digit_char(n % 10))
    }
}

fn append_digit(out: &mut String, d: u64)
    requires
        d < 10,
    ensures
        final(out)@ == old(out)@.push(digit_char(d as nat)),
{
    proof {
        reveal_strlit("0");
        reveal_strlit("1");
        reveal_strlit("2");
        reveal_strlit("3");
        reveal_strlit("4");
        reveal_strlit("5");
        reveal_strlit("6");
        reveal_strlit("7");
        reveal_strlit("8");
        reveal_strlit("9");
    }
    match d {
        0 => out.append("0"),
        1 => out.append("1"),
        2 => out.append("2"),
        3 => out.append("3"),
        4 => out.append("4"),
        5 => out.append("5"),
        6 => out.append("6"),
        7 => out.append("7"),
        8 => out.append("8"),
        _ => out.append("9"),
    }
    assert(out@ =~= old(out)@.push(digit_char(d as nat)));
}

/// A whole number in decimal.
pub open spec fn signed_decimal(n: int) -> Seq<char> {
    if n >= 0 {
        decimal(n as nat)
    } else {
        "-"@ + decimal((-n) as nat)
    }
}

/// Appends a number in decimal.
pub fn append_decimal(out: &mut String, n: u64)
    ensures
        final(out)@ == old(out)@ + decimal(n as nat),
    decreases n,
{
    if n >= 10 {
        append_decimal(out, n / 10);
    }
    append_digit(out, n % 10);
    assert(out@ =~= old(out)@ + decimal(n as nat));
}

/// A number in decimal.
pub fn decimal_text(n: u64) -> (r: String)
    ensures
        r@ == decimal(n as nat),
{
    let mut out = String::new();
    append_decimal(&mut out, n);
    assert(out@ =~= decimal(n as nat));
    out
}

pub open spec fn zeros(n: nat) -> Seq<char> {
    Seq::new(n, |i: int| '0')
}

/// A number in decimal with zeros in front of it, three digits wide at least.
pub open spec fn decimal3(n: nat) -> Seq<char> {
    let d = decimal(n);
    if d.len() < 3 {
        zeros((3 - d.len()) as nat) + d
    } else {
        d
    }
}

/// Appends a number in decimal, three digits wide at least.
pub fn append_decimal3(out: &mut String, n: u64)
    ensures
        final(out)@ == old(out)@ + decimal3(n as nat),
{
    proof {
        reveal_with_fuel(decimal, 4);
        reveal_strlit("0");
        reveal_strlit("00");
        lemma_decimal_len(n as nat);
    }
    if n < 10 {
        out.append("00");
        append_decimal(out, n);
        assert(out@ =~= old(out)@ + decimal3(n as nat));
    } else if n < 100 {
        out.append("0");
        append_decimal(out, n);
        assert(out@ =~= old(out)@ + decimal3(n as nat));
    } else {
        append_decimal(out, n);
    }
}

proof fn lemma_decimal_len(n: nat)
    ensures
        n < 10 ==> decimal(n).len() == 1,
        10 <= n < 100 ==> decimal(n).len() == 2,
        n >= 100 ==> decimal(n).len() >= 3,
    decreases n,
{
    if n >= 10 {
        lemma_decimal_len(n / 10);
    }
}

// ---------------------------------------------------------------------------
// Reading numbers
// ---------------------------------------------------------------------------

/// The number that decimal digits stand for, `None` if there is anything else
/// among them.
pub open spec fn digits_value(s: Seq<char>) -> Option<nat>
    decreases s.len(),
{
    if s.len() == 0 {
        Some(0)
    } else if !is_digit(s.last()) {
        None
    } else {
        match digits_value(s.drop_last()) {
            Some(v) => Some(10 * v + digit_value(s.last())),
            None => None,
        }
    }
}

/// The digits of a number that may have a plus sign.
pub open spec fn unsigned_digits(s: Seq<char>) -> Seq<char> {
    if s.len() > 0 && s[0] == '+' {
        s.skip(1)
    } else {
        s
    }
}

/// The number that a text stands for: digits, one at least, with or without a plus
/// sign, and no more than `max`.
pub open spec fn number(s: Seq<char>, max: nat) -> Option<nat> {
    let d = unsigned_digits(s);
    if d.len() == 0 {
        None
    } else {
        match digits_value(d) {
            Some(v) => if v <= max {
                Some(v)
            } else {
                None
            },
            None => None,
        }
    }
}

/// A prefix of digits stands for no greater a number.
proof fn lemma_digits_prefix(s: Seq<char>, k: int)
    requires
        0 <= k <= s.len(),
    ensures
        digits_value(s.take(k)) is None ==> digits_value(s) is None,
        digits_value(s) is Some ==> digits_value(s.take(k)) is Some && digits_value(s.take(k))->0
            <= digits_value(s)->0,
    decreases s.len(),
{
    if k == s.len() {
        assert(s.take(k) =~= s);
    } else {
        lemma_digits_prefix(s.drop_last(), k);
        assert(s.drop_last().take(k) =~= s.take(k));
    }
}

/// Reads the number between two places.
pub fn parse_number(s: &[char], from: usize, to: usize, max: u64) -> (r: Option<u64>)
    requires
        from <= to <= s@.len(),
    ensures
        match r {
            Some(v) => number(s@.subrange(from as int, to as int), max as nat) == Some(v as nat),
            None => number(s@.subrange(from as int, to as int), max as nat) is None,
        },
{
    let ghost text = s@.subrange(from as int, to as int);
    let start: usize = if from < to && s[from] == '+' {
        from + 1
    } else {
        from
    };
    let ghost digits = unsigned_digits(text);
    assert(digits =~= s@.subrange(start as int, to as int));
    if start == to {
        return None;
    }
    let mut v: u64 = 0;
    let mut i: usize = start;
    while i < to
        invariant
            from <= start <= i <= to <= s@.len(),
            start < to,
            digits == s@.subrange(start as int, to as int),
            digits == unsigned_digits(text),
            text == s@.subrange(from as int, to as int),
            digits_value(digits.take(i - start)) == Some(v as nat),
            v <= max,
        decreases to - i,
    {
        let c: char = s[i];
        let ghost k = i - start;
        assert(digits.take(k + 1).drop_last() =~= digits.take(k));
        assert(digits.take(k + 1).last() == c);
        proof {
            lemma_digits_prefix(digits, k + 1);
        }
        if !('0' <= c && c <= '9') {
            assert(digits_value(digits.take(k + 1)) is None);
            return None;
        }
        let d: u64 = (c as u32 - '0' as u32) as u64;
        if v > max / 10 || d > max - v * 10 {
            return None;
        }
        v = v * 10 + d;
        i = i + 1;
    }
    assert(digits.take(to - start) =~= digits);
    Some(v)
}

proof fn lemma_digits_value_decimal(n: nat)
    ensures
        digits_value(decimal(n)) == Some(n),
        decimal(n).len() > 0,
        is_digit(decimal(n)[0]),
    decreases n,
{
    reveal_with_fuel(digits_value, 2);
    let s = decimal(n);
    if n < 10 {
        assert(s.drop_last() =~= seq![]);
    } else {
        lemma_digits_value_decimal(n / 10);
        assert(s.drop_last() =~= decimal(n / 10));
    }
}

/// A number that was written in decimal is read back.
pub proof fn law_decimal_read_back(n: nat, max: nat)
    requires
        n <= max,
    ensures
        number(decimal(n), max) == Some(n),
{
    lemma_digits_value_decimal(n);
}

proof fn lemma_digits_value_zeros(k: nat, s: Seq<char>)
    ensures
        digits_value(zeros(k) + s) == digits_value(s),
    decreases s.len(), k,
{
    let t = zeros(k) + s;
    if s.len() > 0 {
        lemma_digits_value_zeros(k, s.drop_last());
        assert(t.drop_last() =~= zeros(k) + s.drop_last());
    } else if k > 0 {
        lemma_digits_value_zeros((k - 1) as nat, s);
        assert(t.drop_last() =~= zeros((k - 1) as nat) + s);
    } else {
        assert(t =~= s);
    }
}

/// A number that was written three digits wide is read back.
pub proof fn law_decimal3_read_back(n: nat, max: nat)
    requires
        n <= max,
    ensures
        number(decimal3(n), max) == Some(n),
{
    let d = decimal(n);
    lemma_digits_value_decimal(n);
    if d.len() < 3 {
        lemma_digits_value_zeros((3 - d.len()) as nat, d);
    }
}

// ---------------------------------------------------------------------------
// What holds of texts and numbers
// ---------------------------------------------------------------------------

/// Of the first 128 characters, the space and those from tab to carriage return are white
/// space; digits never are.
pub proof fn law_white_space(c: char)
    ensures
        (c as u32) < 0x80 ==> (is_white_space(c) <==> c as u32 == 0x20 || 0x09 <= c as u32 <= 0x0D),
        is_digit(c) ==> !is_white_space(c),
{
}

/// Trimming takes white space away at both ends, all of it and nothing else: what is left
/// stands between two places of the text, has no white space at its ends, and there is
/// nothing but white space outside.
pub proof fn law_trimmed(s: Seq<char>) -> (at: (int, int))
    ensures
        0 <= at.0 <= at.1 <= s.len(),
        trimmed(s) == s.subrange(at.0, at.1),
        forall|i: int| 0 <= i < at.0 ==> is_white_space(#[trigger] s[i]),
        forall|i: int| at.1 <= i < s.len() ==> is_white_space(#[trigger] s[i]),
        at.0 < at.1 ==> !is_white_space(s[at.0]) && !is_white_space(s[at.1 - 1]),
{
    let a = lemma_trim_start(s);
    let t = trim_start(s);
    let b = lemma_trim_end(t);
    assert(trimmed(s) =~= s.subrange(a, a + b));
    assert forall|i: int| a + b <= i < s.len() implies is_white_space(#[trigger] s[i]) by {
        assert(t[i - a] == s[i]);
    }
    if b > 0 {
        assert(t[b - 1] == s[a + b - 1]);
        assert(t[0] == s[a]);
    }
    (a, a + b)
}

proof fn lemma_trim_start(s: Seq<char>) -> (a: int)
    ensures
        0 <= a <= s.len(),
        trim_start(s) == s.skip(a),
        forall|i: int| 0 <= i < a ==> is_white_space(#[trigger] s[i]),
        a < s.len() ==> !is_white_space(s[a]),
    decreases s.len(),
{
    if s.len() > 0 && is_white_space(s[0]) {
        let b = lemma_trim_start(s.skip(1));
        assert(s.skip(1).skip(b) =~= s.skip(b + 1));
        assert forall|i: int| 0 <= i < b + 1 implies is_white_space(#[trigger] s[i]) by {
            if i > 0 {
                assert(s.skip(1)[i - 1] == s[i]);
            }
        }
        b + 1
    } else {
        assert(s.skip(0) =~= s);
        0
    }
}

proof fn lemma_trim_end(s: Seq<char>) -> (b: int)
    ensures
        0 <= b <= s.len(),
        trim_end(s) == s.take(b),
        forall|i: int| b <= i < s.len() ==> is_white_space(#[trigger] s[i]),
        b > 0 ==> !is_white_space(s[b - 1]),
    decreases s.len(),
{
    if s.len() > 0 && is_white_space(s.last()) {
        let t = s.drop_last();
        let b = lemma_trim_end(t);
        assert(t.take(b) =~= s.take(b));
        assert forall|i: int| b <= i < s.len() implies is_white_space(#[trigger] s[i]) by {
            if i < t.len() {
                assert(t[i] == s[i]);
            }
        }
        b
    } else {
        assert(s.take(s.len() as int) =~= s);
        s.len() as int
    }
}

/// Ten to the power of `k`.
pub open spec fn ten_to(k: nat) -> nat
    decreases k,
{
    if k == 0 {
        1
    } else {
        10 * ten_to((k - 1) as nat)
    }
}

/// Digits have their value by their place: each stands for ten times what it would stand for
/// one place further back. Anything else among them makes it no number.
pub proof fn law_digits_count_by_place(a: Seq<char>, b: Seq<char>)
    ensures
        digits_value(a + b) is Some <==> digits_value(a) is Some && digits_value(b) is Some,
        digits_value(a + b) is Some ==> digits_value(a + b)->0 == digits_value(a)->0 * ten_to(
            b.len(),
        ) + digits_value(b)->0,
    decreases b.len(),
{
    if b.len() == 0 {
        assert(a + b =~= a);
        let v = digits_value(a)->0;
        assert(v * ten_to(b.len()) == v) by (nonlinear_arith)
            requires
                ten_to(b.len()) == 1,
        ;
    } else {
        let c = b.drop_last();
        assert((a + b).drop_last() =~= a + c);
        law_digits_count_by_place(a, c);
        assert((a + b).last() == b.last());
        if digits_value(a + b) is Some {
            let v = digits_value(a)->0;
            let t = ten_to(c.len());
            assert(ten_to(b.len()) == 10 * t);
            assert(10 * (v * t) == v * (10 * t)) by (nonlinear_arith);
            assert(digits_value(a + b)->0 == 10 * (v * t + digits_value(c)->0) + digit_value(
                b.last(),
            ));
        }
    }
}

/// The digit of a number below ten stands for that number, and it is a digit.
pub proof fn law_digit_read_back(d: nat)
    requires
        d < 10,
    ensures
        is_digit(digit_char(d)),
        digits_value(seq![digit_char(d)]) == Some(d),
        digit_char(d) as u32 == 0x30 + d,
{
    reveal_with_fuel(digits_value, 2);
    assert(seq![digit_char(d)].drop_last() =~= seq![]);
}

/// A number in decimal has digits only, and no zero in front unless it is 0.
pub proof fn law_decimal_has_digits(n: nat)
    ensures
        decimal(n).len() > 0,
        forall|i: int| 0 <= i < decimal(n).len() ==> is_digit(#[trigger] decimal(n)[i]),
        n > 0 ==> decimal(n)[0] != '0',
        n == 0 ==> decimal(n) == seq!['0'],
        digits_value(decimal(n)) == Some(n),
    decreases n,
{
    lemma_digits_value_decimal(n);
    if n >= 10 {
        let front = decimal(n / 10);
        law_decimal_has_digits(n / 10);
        assert forall|i: int| 0 <= i < decimal(n).len() implies is_digit(#[trigger] decimal(n)[i]) by {
            if i < front.len() {
                assert(front[i] == decimal(n)[i]);
            }
        }
        assert(decimal(n)[0] == front[0]);
    }
}

/// Digits without a needless zero in front are the number that they stand for, in decimal:
/// there is no other way to write it.
pub proof fn law_digits_are_the_decimal(s: Seq<char>)
    requires
        s.len() > 0,
        digits_value(s) is Some,
        s.len() > 1 ==> s[0] != '0',
    ensures
        s == decimal(digits_value(s)->0),
        s.len() > 1 ==> digits_value(s)->0 >= 10,
    decreases s.len(),
{
    let t = s.drop_last();
    let c = s.last();
    let d = digit_value(c);
    assert(digit_char(d) == c);
    if s.len() == 1 {
        assert(t =~= seq![]);
        assert(s =~= seq![c]);
    } else {
        assert(t[0] == s[0]);
        law_digits_are_the_decimal(t);
        let w = digits_value(t)->0;
        if t.len() == 1 {
            reveal_with_fuel(digits_value, 2);
            assert(t.drop_last() =~= seq![]);
            assert(w >= 1);
        }
        assert((10 * w + d) as nat / 10 == w && (10 * w + d) as nat % 10 == d);
        assert(s =~= t.push(c));
    }
}

/// A number below 0 is a minus sign in front of the number without it.
pub proof fn law_signed_decimal(n: int)
    ensures
        signed_decimal(n).len() > 0,
        signed_decimal(n)[0] == '-' <==> n < 0,
        n < 0 ==> signed_decimal(n).skip(1) == signed_decimal(-n),
        n >= 0 ==> digits_value(signed_decimal(n)) == Some(n as nat),
{
    reveal_strlit("-");
    if n < 0 {
        law_decimal_has_digits((-n) as nat);
        assert(signed_decimal(n).skip(1) =~= decimal((-n) as nat));
    } else {
        law_decimal_has_digits(n as nat);
        assert(is_digit(decimal(n as nat)[0]));
    }
}

/// Three digits wide, a number ends with its digits; there are zeros in front of them, and no
/// more than it takes.
pub proof fn law_decimal3_pads_with_zeros(n: nat)
    ensures
        decimal3(n).len() >= 3,
        n < 1000 ==> decimal3(n).len() == 3,
        n >= 100 ==> decimal3(n) == decimal(n),
        decimal3(n).len() >= decimal(n).len(),
        decimal3(n).skip(decimal3(n).len() - decimal(n).len()) == decimal(n),
        forall|i: int|
            0 <= i < decimal3(n).len() - decimal(n).len() ==> #[trigger] decimal3(n)[i] == '0',
{
    lemma_decimal_len(n);
    if 100 <= n < 1000 {
        lemma_decimal_len(n / 10);
    }
    assert(decimal3(n).skip(decimal3(n).len() - decimal(n).len()) =~= decimal(n));
}

/// The limit decides only whether a number is read, not which.
pub proof fn law_number_within_its_limit(s: Seq<char>, max: nat, less: nat)
    requires
        less <= max,
    ensures
        number(s, max) is Some ==> number(s, max)->0 <= max,
        number(s, less) is Some ==> number(s, max) == number(s, less),
        number(s, max) is Some && number(s, max)->0 <= less ==> number(s, less) == number(s, max),
{
}

/// A number may have one plus sign in front, and zeros; it has one digit at least.
pub proof fn law_number_with_a_sign(s: Seq<char>, max: nat, k: nat)
    ensures
        number(seq![], max) is None,
        number(seq!['+'], max) is None,
        s.len() > 0 && s[0] != '+' ==> number(seq!['+'] + s, max) == number(s, max),
        s.len() > 0 && s[0] == '+' ==> number(seq!['+'] + s, max) is None,
        s.len() > 0 && s[0] != '+' ==> number(zeros(k) + s, max) == number(s, max),
{
    assert((seq!['+'] + s).skip(1) =~= s);
    assert(seq!['+'].skip(1) =~= seq![]);
    if s.len() > 0 && s[0] == '+' {
        let t = s.take(1);
        assert(t =~= seq!['+']);
        assert(digits_value(t) is None) by {
            assert(!is_digit(t.last()));
        }
        lemma_digits_prefix(s, 1);
    }
    lemma_digits_value_zeros(k, s);
    if k == 0 {
        assert(zeros(k) + s =~= s);
    }
}

/// A text is a number only if it consists of digits, apart from a sign in front.
pub proof fn law_numbers_are_digits(s: Seq<char>, max: nat, i: int)
    requires
        number(s, max) is Some,
        0 <= i < s.len(),
    ensures
        is_digit(s[i]) || i == 0 && s[i] == '+',
{
    let d = unsigned_digits(s);
    let j = if d.len() < s.len() {
        i - 1
    } else {
        i
    };
    if j >= 0 {
        lemma_digits_prefix(d, j + 1);
        assert(d.take(j + 1).last() == s[i]);
    }
}

} // verus!
