//! What the log lines show of a record: the colour of its level and the
//! label of its target.

use vstd::prelude::*;
use vstd::string::StrSliceExecFns;

use crate::config::text::chars_of;

verus! {

/// The level of a log record.
#[derive(Clone, Copy, Debug, PartialEq, Eq, Structural)]
pub enum LogLevel {
    Error,
    Warn,
    Info,
    Debug,
    Trace,
}

/// The terminal colour of a level: blue for info, yellow for warnings, red
/// for errors, green for debug, magenta for trace, all bold.
pub open spec fn level_color_spec(level: LogLevel) -> Seq<char> {
    match level {
        LogLevel::Info => "\x1b[34;1m"@,
        LogLevel::Warn => "\x1b[33;1m"@,
        LogLevel::Error => "\x1b[31;1m"@,
        LogLevel::Debug => "\x1b[32;1m"@,
        LogLevel::Trace => "\x1b[35;1m"@,
    }
}

/// The escape sequence that colours a record of `level`.
pub fn level_color(level: LogLevel) -> (color: &'static str)
    ensures
        color@ == level_color_spec(level),
{
    match level {
        LogLevel::Info => "\x1b[34;1m",
        LogLevel::Warn => "\x1b[33;1m",
        LogLevel::Error => "\x1b[31;1m",
        LogLevel::Debug => "\x1b[32;1m",
        LogLevel::Trace => "\x1b[35;1m",
    }
}

/// `a` comes before `b` in the order of strings: character by character,
/// by code point, a proper prefix first.
pub open spec fn lex_less(a: Seq<char>, b: Seq<char>) -> bool
    decreases a.len(),
{
    if a.len() == 0 {
        b.len() > 0
    } else if b.len() == 0 {
        false
    } else if a[0] != b[0] {
        (a[0] as u32) < (b[0] as u32)
    } else {
        lex_less(a.drop_first(), b.drop_first())
    }
}

/// The position of the first `::` in `s` at or after `i`, or the end.
pub open spec fn next_separator(s: Seq<char>, i: int) -> int
    decreases s.len() - i,
{
    if 0 <= i && i + 1 < s.len() {
        if s[i] == ':' && s[i + 1] == ':' {
            i
        } else {
            next_separator(s, i + 1)
        }
    } else {
        s.len() as int
    }
}

proof fn lemma_next_separator(s: Seq<char>, i: int)
    requires
        0 <= i <= s.len(),
    ensures
        i <= next_separator(s, i) <= s.len(),
        next_separator(s, i) < s.len() ==> next_separator(s, i) + 1 < s.len()
            && s[next_separator(s, i)] == ':' && s[next_separator(s, i) + 1] == ':',
    decreases s.len() - i,
{
    if i + 1 < s.len() && !(s[i] == ':' && s[i + 1] == ':') {
        lemma_next_separator(s, i + 1);
    }
}

/// The least, in the order of strings, of `best` and the pieces of `s`
/// split at each `::` from the piece that starts at `i` on; of equal
/// pieces the first stays.
pub open spec fn least_piece_from(s: Seq<char>, i: int, best: Seq<char>) -> Seq<char>
    decreases s.len() - i
    via least_piece_from_decreases
{
    if 0 <= i <= s.len() {
        let j = next_separator(s, i);
        let piece = s.subrange(i, j);
        let best2 = if lex_less(piece, best) {
            piece
        } else {
            best
        };
        if j < s.len() {
            least_piece_from(s, j + 2, best2)
        } else {
            best2
        }
    } else {
        best
    }
}

#[via_fn]
proof fn least_piece_from_decreases(s: Seq<char>, i: int, best: Seq<char>) {
    if 0 <= i <= s.len() {
        lemma_next_separator(s, i);
    }
}

/// The label that a log line shows for a record's target (a module path):
/// the least of its pieces split at each `::`, in the order of strings.
pub open spec fn target_label_spec(target: Seq<char>) -> Seq<char> {
    least_piece_from(target, 0, target.subrange(0, next_separator(target, 0)))
}

/// The pieces of `s` split at each `::`, from the one that starts at `i`,
/// as `str::split` gives them.
pub open spec fn pieces_from(s: Seq<char>, i: int) -> Seq<Seq<char>>
    decreases s.len() - i
    via pieces_from_decreases
{
    if 0 <= i <= s.len() {
        let j = next_separator(s, i);
        if j < s.len() {
            seq![s.subrange(i, j)] + pieces_from(s, j + 2)
        } else {
            seq![s.subrange(i, j)]
        }
    } else {
        Seq::empty()
    }
}

#[via_fn]
proof fn pieces_from_decreases(s: Seq<char>, i: int) {
    if 0 <= i <= s.len() {
        lemma_next_separator(s, i);
    }
}

proof fn lemma_lex_irreflexive(a: Seq<char>)
    ensures
        !lex_less(a, a),
    decreases a.len(),
{
    if a.len() > 0 {
        lemma_lex_irreflexive(a.drop_first());
    }
}

proof fn lemma_lex_asymmetric(a: Seq<char>, b: Seq<char>)
    requires
        lex_less(a, b),
    ensures
        !lex_less(b, a),
    decreases a.len(),
{
    if a.len() > 0 && b.len() > 0 && a[0] == b[0] {
        lemma_lex_asymmetric(a.drop_first(), b.drop_first());
    }
}

/// Not coming before is transitive: `c` no later than `b`, `b` no later
/// than `a`, so `c` no later than `a`.
proof fn lemma_lex_not_less_transitive(a: Seq<char>, b: Seq<char>, c: Seq<char>)
    requires
        !lex_less(a, b),
        !lex_less(b, c),
    ensures
        !lex_less(a, c),
    decreases a.len(),
{
    if a.len() > 0 && b.len() > 0 && c.len() > 0 {
        let x = a[0] as u32;
        let y = b[0] as u32;
        let z = c[0] as u32;
        vstd::utf8::char_u32_cast(a[0], x);
        vstd::utf8::char_u32_cast(b[0], y);
        vstd::utf8::char_u32_cast(c[0], z);
        assert(a[0] == b[0] || x > y);
        assert(b[0] == c[0] || y > z);
        if a[0] == b[0] && b[0] == c[0] {
            lemma_lex_not_less_transitive(a.drop_first(), b.drop_first(), c.drop_first());
        } else {
            assert(x > z);
        }
    }
}

proof fn lemma_least_piece_from(s: Seq<char>, i: int, best: Seq<char>)
    requires
        0 <= i <= s.len(),
    ensures
        least_piece_from(s, i, best) == best || pieces_from(s, i).contains(least_piece_from(s, i, best)),
        !lex_less(best, least_piece_from(s, i, best)),
        forall|k: int| 0 <= k < pieces_from(s, i).len() ==> !lex_less(#[trigger] pieces_from(s, i)[k], least_piece_from(s, i, best)),
    decreases s.len() - i,
{
    lemma_next_separator(s, i);
    let j = next_separator(s, i);
    let piece = s.subrange(i, j);
    let best2 = if lex_less(piece, best) {
        piece
    } else {
        best
    };
    lemma_lex_irreflexive(best);
    lemma_lex_irreflexive(piece);
    if lex_less(piece, best) {
        lemma_lex_asymmetric(piece, best);
    }
    assert(!lex_less(best, best2));
    assert(!lex_less(piece, best2));
    if j < s.len() {
        let rest = pieces_from(s, j + 2);
        let r = least_piece_from(s, j + 2, best2);
        lemma_least_piece_from(s, j + 2, best2);
        lemma_lex_not_less_transitive(best, best2, r);
        lemma_lex_not_less_transitive(piece, best2, r);
        assert(pieces_from(s, i) == seq![piece] + rest);
        assert forall|k: int| 0 <= k < pieces_from(s, i).len() implies !lex_less(#[trigger] pieces_from(s, i)[k], r) by {
            if k > 0 {
                assert(pieces_from(s, i)[k] == rest[k - 1]);
            }
        }
        if r != best2 {
            let k = choose|k: int| 0 <= k < rest.len() && rest[k] == r;
            assert(pieces_from(s, i)[k + 1] == r);
        } else if best2 == piece {
            assert(pieces_from(s, i)[0] == r);
        }
    } else {
        assert(pieces_from(s, i) == seq![piece]);
        if best2 == piece {
            assert(pieces_from(s, i)[0] == best2);
        }
    }
}

/// The label of a target is one of its pieces split at each `::`, and no
/// piece comes before it in the order of strings.
pub proof fn lemma_target_label_is_least_piece(target: Seq<char>)
    ensures
        pieces_from(target, 0).contains(target_label_spec(target)),
        forall|k: int| 0 <= k < pieces_from(target, 0).len() ==> !lex_less(
            #[trigger] pieces_from(target, 0)[k],
            target_label_spec(target),
        ),
{
    lemma_next_separator(target, 0);
    let first = target.subrange(0, next_separator(target, 0));
    lemma_least_piece_from(target, 0, first);
    assert(pieces_from(target, 0)[0] == first);
}

/// Whether `s[a0..a1]` comes before `s[b0..b1]` in the order of strings.
fn range_less(s: &Vec<char>, a0: usize, a1: usize, b0: usize, b1: usize) -> (r: bool)
    requires
        a0 <= a1 <= s.len(),
        b0 <= b1 <= s.len(),
    ensures
        r == lex_less(s@.subrange(a0 as int, a1 as int), s@.subrange(b0 as int, b1 as int)),
    decreases a1 - a0,
{
    let ghost a = s@.subrange(a0 as int, a1 as int);
    let ghost b = s@.subrange(b0 as int, b1 as int);
    if a0 == a1 {
        b0 < b1
    } else if b0 == b1 {
        false
    } else if s[a0] != s[b0] {
        (s[a0] as u32) < (s[b0] as u32)
    } else {
        assert(a.drop_first() =~= s@.subrange(a0 + 1, a1 as int));
        assert(b.drop_first() =~= s@.subrange(b0 + 1, b1 as int));
        range_less(s, a0 + 1, a1, b0 + 1, b1)
    }
}

/// Finds the first `::` in `s` at or after `from`; the end if none.
fn find_separator(s: &Vec<char>, from: usize) -> (r: usize)
    requires
        from <= s.len(),
    ensures
        r == next_separator(s@, from as int),
{
    let mut i = from;
    while i < s.len() && i + 1 < s.len()
        invariant
            from <= i <= s.len(),
            next_separator(s@, from as int) == next_separator(s@, i as int),
        decreases s.len() - i,
    {
        if s[i] == ':' && s[i + 1] == ':' {
            return i;
        }
        i = i + 1;
    }
    s.len()
}

/// The label that a log line shows for a record's target.
pub fn target_label(target: &str) -> (label: String)
    ensures
        label@ == target_label_spec(target@),
{
    let s = chars_of(target);
    let ghost sv = s@;
    let first_end = find_separator(&s, 0);
    proof {
        lemma_next_separator(sv, 0);
    }
    let mut best_start: usize = 0;
    let mut best_end: usize = first_end;
    let mut i: usize = 0;
    loop
        invariant_except_break
            i <= s.len(),
            target_label_spec(sv) == least_piece_from(sv, i as int, sv.subrange(best_start as int, best_end as int)),
        invariant
            s@ == sv,
            sv == target@,
            best_start <= best_end <= s.len(),
        ensures
            target_label_spec(sv) == sv.subrange(best_start as int, best_end as int),
        decreases s.len() - i,
    {
        let j = find_separator(&s, i);
        proof {
            lemma_next_separator(sv, i as int);
        }
        if range_less(&s, i, j, best_start, best_end) {
            best_start = i;
            best_end = j;
        }
        if j >= s.len() {
            break;
        }
        i = j + 2;
    }
    target.substring_char(best_start, best_end).to_owned()
}

} // verus!
