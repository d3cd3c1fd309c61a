//! Plain-text helpers over characters: Unicode whitespace, trimming,
//! decimal numbers.

use vstd::prelude::*;

verus! {

/// The characters of a string slice, in order.
pub(crate) fn chars_of(text: &str) -> (v: Vec<char>)
    ensures
        v@ == text@,
{
    broadcast use vstd::string::group_string_axioms;
    let mut v: Vec<char> = Vec::new();
    for c in it: text.chars()
        invariant
            it.seq() == text@,
            v@ == text@.take(it.index() as int),
    {
        v.push(c);
        assert(v@ =~= text@.take(it.index() + 1));
    }
    assert(v@ =~= text@);
    v
}

/// Unicode whitespace, as `char::is_whitespace` takes it: the characters
/// with the `White_Space` property.
pub open spec fn is_whitespace(c: char) -> bool {
    let u = c as u32;
    ||| 0x09 <= u <= 0x0d
    ||| u == 0x20
    ||| u == 0x85
    ||| u == 0xa0
    ||| u == 0x1680
    ||| 0x2000 <= u <= 0x200a
    ||| u == 0x2028
    ||| u == 0x2029
    ||| u == 0x202f
    ||| u == 0x205f
    ||| u == 0x3000
}

pub(crate) fn char_is_whitespace(c: char) -> (b: bool)
    ensures
        b == is_whitespace(c),
{
    let u = c as u32;
    (0x09 <= u && u <= 0x0d) || u == 0x20 || u == 0x85 || u == 0xa0 || u == 0x1680 || (0x2000 <= u && u
        <= 0x200a) || u == 0x2028 || u == 0x2029 || u == 0x202f || u == 0x205f || u == 0x3000
}

/// The position of the first `c` in `s` at or after `i`, or the end of `s`.
pub open spec fn next_char(s: Seq<char>, i: int, c: char) -> int
    decreases s.len() - i,
{
    if 0 <= i < s.len() && s[i] != c {
        next_char(s, i + 1, c)
    } else {
        i
    }
}

pub proof fn lemma_next_char_bounds(s: Seq<char>, i: int, c: char)
    requires
        0 <= i <= s.len(),
    ensures
        i <= next_char(s, i, c) <= s.len(),
        next_char(s, i, c) < s.len() ==> s[next_char(s, i, c)] == c,
        forall|j: int| i <= j < next_char(s, i, c) ==> s[j] != c,
    decreases s.len() - i,
{
    if i < s.len() && s[i] != c {
        lemma_next_char_bounds(s, i + 1, c);
    }
}

/// Finds the first `c` in `s` at or after `from`; the end of `s` if none.
pub(crate) fn find_char(s: &Vec<char>, from: usize, c: char) -> (r: usize)
    requires
        from <= s.len(),
    ensures
        r == next_char(s@, from as int, c),
{
    let mut i = from;
    while i < s.len() && s[i] != c
        invariant
            from <= i <= s.len(),
            next_char(s@, from as int, c) == next_char(s@, i as int, c),
        decreases s.len() - i,
    {
        i = i + 1;
    }
    i
}

/// Where the text of `l` starts once leading whitespace from `i` on is
/// dropped.
pub open spec fn trim_start(l: Seq<char>, i: int) -> int
    decreases l.len() - i,
{
    if 0 <= i < l.len() && is_whitespace(l[i]) {
        trim_start(l, i + 1)
    } else {
        i
    }
}

/// Where the text of `l` ends once trailing whitespace before `j` is
/// dropped, going back no further than `lo`.
pub open spec fn trim_end(l: Seq<char>, j: int, lo: int) -> int
    decreases j - lo,
{
    if lo < j <= l.len() && is_whitespace(l[j - 1]) {
        trim_end(l, j - 1, lo)
    } else {
        j
    }
}

/// `l` without leading and trailing whitespace, as `str::trim` gives it.
pub open spec fn trim(l: Seq<char>) -> Seq<char> {
    let a = trim_start(l, 0);
    l.subrange(a, trim_end(l, l.len() as int, a))
}

/// The bounds of `l` without leading and trailing whitespace.
pub(crate) fn trim_bounds(l: &Vec<char>) -> (r: (usize, usize))
    ensures
        r.0 == trim_start(l@, 0),
        r.1 == trim_end(l@, l@.len() as int, r.0 as int),
        r.0 <= r.1 <= l@.len(),
        trim(l@) == l@.subrange(r.0 as int, r.1 as int),
{
    let mut a: usize = 0;
    while a < l.len() && char_is_whitespace(l[a])
        invariant
            a <= l.len(),
            trim_start(l@, 0) == trim_start(l@, a as int),
        decreases l.len() - a,
    {
        a = a + 1;
    }
    let mut b: usize = l.len();
    while b > a && char_is_whitespace(l[b - 1])
        invariant
            a <= b <= l.len(),
            a == trim_start(l@, 0),
            trim_end(l@, l@.len() as int, a as int) == trim_end(l@, b as int, a as int),
        decreases b,
    {
        b = b - 1;
    }
    (a, b)
}

/// A decimal digit.
pub open spec fn is_digit(c: char) -> bool {
    0x30 <= c as u32 <= 0x39
}

/// The number that the decimal digits `d` write.
pub open spec fn decimal_value(d: Seq<char>) -> nat
    decreases d.len(),
{
    if d.len() == 0 {
        0
    } else {
        decimal_value(d.drop_last()) * 10 + ((d.last() as u32) - 0x30) as nat
    }
}

/// One or more decimal digits.
pub open spec fn is_decimal(d: Seq<char>) -> bool {
    &&& d.len() > 0
    &&& forall|i: int| 0 <= i < d.len() ==> is_digit(#[trigger] d[i])
}

/// The digits of an unsigned number as `FromStr` takes it: an optional
/// leading `+`, then the digits.
pub open spec fn unsigned_digits(f: Seq<char>) -> Seq<char> {
    if f.len() > 0 && f[0] == '+' {
        f.skip(1)
    } else {
        f
    }
}

/// `f` is an unsigned number no greater than `max`, as the `FromStr` of an
/// unsigned integer type whose greatest value is `max` accepts it.
pub open spec fn parses_unsigned(f: Seq<char>, max: nat) -> bool {
    &&& is_decimal(unsigned_digits(f))
    &&& decimal_value(unsigned_digits(f)) <= max
}

/// The number that `f` writes.
pub open spec fn unsigned_value(f: Seq<char>) -> nat {
    decimal_value(unsigned_digits(f))
}

pub proof fn lemma_decimal_prefix(d: Seq<char>, k: int)
    requires
        0 <= k <= d.len(),
    ensures
        decimal_value(d.take(k)) <= decimal_value(d),
    decreases d.len(),
{
    if k < d.len() {
        assert(d.drop_last().take(k) =~= d.take(k));
        lemma_decimal_prefix(d.drop_last(), k);
    } else {
        assert(d.take(k) =~= d);
    }
}

/// Whether `s[from..to]` is an unsigned number no greater than `max`.
pub(crate) fn is_unsigned_within(s: &Vec<char>, from: usize, to: usize, max: u32) -> (b: bool)
    requires
        from <= to <= s.len(),
    ensures
        b == parses_unsigned(s@.subrange(from as int, to as int), max as nat),
{
    let ghost f = s@.subrange(from as int, to as int);
    let mut i = from;
    if i < to && s[i] == '+' {
        i = i + 1;
    }
    let ghost d = unsigned_digits(f);
    assert(d =~= s@.subrange(i as int, to as int));
    if i == to {
        return false;
    }
    let ghost first = i;
    let mut value: u64 = 0;
    while i < to
        invariant
            from <= first <= i <= to <= s.len(),
            d == unsigned_digits(s@.subrange(from as int, to as int)),
            d == s@.subrange(first as int, to as int),
            forall|j: int| 0 <= j < i - first ==> is_digit(#[trigger] d[j]),
            value == decimal_value(d.take(i - first)),
            value <= max,
        decreases to - i,
    {
        let ghost k = i - first;
        let c = s[i];
        assert(c == d[k]);
        let u = c as u32;
        if u < 0x30 || u > 0x39 {
            assert(!is_digit(d[k]));
            return false;
        }
        assert(d.take(k + 1).drop_last() =~= d.take(k));
        value = value * 10 + ((u - 0x30) as u64);
        i = i + 1;
        if value > max as u64 {
            proof {
                lemma_decimal_prefix(d, k + 1);
            }
            return false;
        }
    }
    assert(d.take(d.len() as int) =~= d);
    true
}

/// Reads the unsigned number that `s[from..to]` writes.
pub(crate) fn parse_unsigned(s: &Vec<char>, from: usize, to: usize, max: u32) -> (v: u32)
    requires
        from <= to <= s.len(),
        parses_unsigned(s@.subrange(from as int, to as int), max as nat),
    ensures
        v == unsigned_value(s@.subrange(from as int, to as int)),
{
    let ghost f = s@.subrange(from as int, to as int);
    let mut i = from;
    if i < to && s[i] == '+' {
        i = i + 1;
    }
    let ghost d = unsigned_digits(f);
    assert(d =~= s@.subrange(i as int, to as int));
    let mut value: u32 = 0;
    while i < to
        invariant
            from <= i <= to <= s.len(),
            d == s@.subrange(to - d.len(), to as int),
            from <= to - d.len() <= i,
            is_decimal(d),
            decimal_value(d) <= max,
            value == decimal_value(d.take(i - (to - d.len()))),
        decreases to - i,
    {
        let ghost k = i - (to - d.len());
        proof {
            lemma_decimal_prefix(d, k + 1);
            assert(d.take(k + 1).drop_last() =~= d.take(k));
            assert(s@[i as int] == d[k]);
            assert(is_digit(d[k]));
            assert(d.take(k + 1).last() == d[k]);
            assert(decimal_value(d.take(k + 1)) == value * 10 + ((d[k] as u32) - 0x30) as nat);
        }
        let digit = (s[i] as u32) - 0x30;
        value = value * 10 + digit;
        i = i + 1;
    }
    assert(d.take(d.len() as int) =~= d);
    value
}

} // verus!
