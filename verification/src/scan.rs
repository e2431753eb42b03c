//! Searching, trimming and splitting text.

use crate::seqs;
use crate::text;
use vstd::prelude::*;

verus! {

// ---------------------------------------------------------------------------
// Characters
// ---------------------------------------------------------------------------
/// The lower-case form of an ASCII letter; any other character itself.
pub open spec fn lower(c: char) -> char {
    if 'A' <= c <= 'Z' {
        (c as int + 32) as char
    } else {
        c
    }
}

/// `s` with its ASCII letters in lower case.
pub open spec fn lower_text(s: Seq<char>) -> Seq<char> {
    s.map_values(|c: char| lower(c))
}

/// Unicode's White_Space characters.
pub open spec fn is_space(c: char) -> bool {
    ||| '\u{9}' <= c <= '\u{d}'
    ||| c == ' '
    ||| c == '\u{85}'
    ||| c == '\u{a0}'
    ||| c == '\u{1680}'
    ||| '\u{2000}' <= c <= '\u{200a}'
    ||| c == '\u{2028}'
    ||| c == '\u{2029}'
    ||| c == '\u{202f}'
    ||| c == '\u{205f}'
    ||| c == '\u{3000}'
}

fn space(c: char) -> (r: bool)
    ensures
        r == is_space(c),
{
    ('\u{9}' <= c && c <= '\u{d}') || c == ' ' || c == '\u{85}' || c == '\u{a0}' || c == '\u{1680}'
        || ('\u{2000}' <= c && c <= '\u{200a}') || c == '\u{2028}' || c == '\u{2029}' || c
        == '\u{202f}' || c == '\u{205f}' || c == '\u{3000}'
}

/// `s` with its ASCII letters in lower case.
pub fn to_lower(s: &str) -> (r: String)
    ensures
        r@ == lower_text(s@),
{
    let cs: Vec<char> = text::chars_of(s);
    let mut out: String = String::new();
    let mut i: usize = 0;
    while i < cs.len()
        invariant
            i <= cs.len(),
            cs@ == s@,
            out@ == lower_text(s@.take(i as int)),
        decreases cs.len() - i,
    {
        let c: char = cs[i];
        let l: char = if 'A' <= c && c <= 'Z' {
            (c as u8 + 32) as char
        } else {
            c
        };
        out.push(l);
        i = i + 1;
        assert(lower_text(s@.take(i as int)) =~= lower_text(s@.take(i - 1)).push(lower(c)));
    }
    assert(s@.take(i as int) =~= s@);
    out
}

// ---------------------------------------------------------------------------
// Occurrences
// ---------------------------------------------------------------------------
/// Whether `p` stands in `s` at position `i`.
pub open spec fn occurs_at(s: Seq<char>, p: Seq<char>, i: int) -> bool {
    0 <= i && i + p.len() <= s.len() && s.subrange(i, i + p.len()) == p
}

/// Whether `s` begins with `p`.
pub open spec fn begins_with(s: Seq<char>, p: Seq<char>) -> bool {
    occurs_at(s, p, 0)
}

/// Whether `p` occurs in `s`.
pub open spec fn holds(s: Seq<char>, p: Seq<char>) -> bool {
    exists|i: int| occurs_at(s, p, i)
}

/// Whether `p` stands in `s` at position `i`.
fn found_at(s: &Vec<char>, p: &Vec<char>, i: usize) -> (r: bool)
    ensures
        r == occurs_at(s@, p@, i as int),
{
    if i > s.len() || p.len() > s.len() - i {
        return false;
    }
    let mut j: usize = 0;
    while j < p.len()
        invariant
            j <= p.len(),
            i + p.len() <= s.len(),
            forall|k: int| 0 <= k < j ==> s@[i + k] == p@[k],
        decreases p.len() - j,
    {
        if s[i + j] != p[j] {
            assert(s@.subrange(i as int, i + p@.len())[j as int] == s@[i + j]);
            return false;
        }
        j = j + 1;
    }
    assert(s@.subrange(i as int, i + p@.len()) =~= p@);
    true
}

/// Whether `s` begins with `p`.
pub fn starts_with(s: &str, p: &str) -> (r: bool)
    ensures
        r == begins_with(s@, p@),
{
    found_at(&text::chars_of(s), &text::chars_of(p), 0)
}

/// Whether `p` occurs in `s`.
pub fn contains(s: &str, p: &str) -> (r: bool)
    ensures
        r == holds(s@, p@),
{
    let cs: Vec<char> = text::chars_of(s);
    let ps: Vec<char> = text::chars_of(p);
    let mut i: usize = 0;
    loop
        invariant
            i <= cs.len(),
            cs@ == s@,
            ps@ == p@,
            forall|j: int| 0 <= j < i ==> !occurs_at(s@, p@, j),
        decreases cs.len() - i,
    {
        if found_at(&cs, &ps, i) {
            return true;
        }
        if i == cs.len() {
            return false;
        }
        i = i + 1;
    }
}

/// What follows the prefix `p` of `s`, if `s` begins with it.
pub fn strip_prefix(s: &str, p: &str) -> (r: Option<String>)
    ensures
        r is Some <==> begins_with(s@, p@),
        r matches Some(rest) ==> rest@ == s@.skip(p@.len() as int),
{
    let cs: Vec<char> = text::chars_of(s);
    let ps: Vec<char> = text::chars_of(p);
    if found_at(&cs, &ps, 0) {
        let rest: String = text::string_of(&cs, ps.len(), cs.len());
        assert(rest@ =~= s@.skip(p@.len() as int));
        Some(rest)
    } else {
        None
    }
}

// ---------------------------------------------------------------------------
// Trimming
// ---------------------------------------------------------------------------
/// `s` without the white space in front.
pub open spec fn trim_front(s: Seq<char>) -> Seq<char>
    decreases s.len(),
{
    if s.len() > 0 && is_space(s[0]) {
        trim_front(s.drop_first())
    } else {
        s
    }
}

/// `s` without the white space at the end.
pub open spec fn trim_back(s: Seq<char>) -> Seq<char>
    decreases s.len(),
{
    if s.len() > 0 && is_space(s.last()) {
        trim_back(s.drop_last())
    } else {
        s
    }
}

/// `s` without the white space on either side.
pub open spec fn trimmed(s: Seq<char>) -> Seq<char> {
    trim_back(trim_front(s))
}

/// `s` without the white space on either side.
pub fn trim(s: &Vec<char>) -> (r: Vec<char>)
    ensures
        r@ == trimmed(s@),
{
    let mut from: usize = 0;
    assert(s@.skip(0) =~= s@);
    while from < s.len() && space(s[from])
        invariant
            from <= s.len(),
            trim_front(s@.skip(from as int)) == trim_front(s@),
        decreases s.len() - from,
    {
        assert(s@.skip(from as int).drop_first() =~= s@.skip(from + 1));
        from = from + 1;
    }
    let mut to: usize = s.len();
    assert(s@.subrange(from as int, to as int) =~= s@.skip(from as int));
    while to > from && space(s[to - 1])
        invariant
            from <= to <= s.len(),
            trim_back(s@.subrange(from as int, to as int)) == trimmed(s@),
        decreases to,
    {
        assert(s@.subrange(from as int, to as int).drop_last() =~= s@.subrange(
            from as int,
            to - 1,
        ));
        to = to - 1;
    }
    slice_of(s, from, to)
}

/// Whether `s` is nothing but white space.
pub fn is_blank(s: &str) -> (r: bool)
    ensures
        r == (trimmed(s@).len() == 0),
{
    trim(&text::chars_of(s)).len() == 0
}

// ---------------------------------------------------------------------------
// Splitting
// ---------------------------------------------------------------------------
/// The characters of a run of character vectors.
pub open spec fn char_seqs(v: Seq<Vec<char>>) -> Seq<Seq<char>> {
    v.map_values(|p: Vec<char>| p@)
}

/// The first position at which `sep` stands in `s`, or the length of `s`.
pub open spec fn first_occurrence(s: Seq<char>, sep: Seq<char>) -> int
    decreases s.len(),
{
    if s.len() == 0 || occurs_at(s, sep, 0) {
        0
    } else {
        1 + first_occurrence(s.drop_first(), sep)
    }
}

pub proof fn lemma_first_occurrence(s: Seq<char>, sep: Seq<char>, n: int)
    requires
        0 <= n <= s.len(),
        n < s.len() ==> occurs_at(s, sep, n),
        forall|j: int| 0 <= j < n ==> !occurs_at(s, sep, j),
    ensures
        first_occurrence(s, sep) == n,
    decreases n,
{
    if n > 0 {
        let rest = s.drop_first();
        assert forall|j: int| 0 <= j < n - 1 implies !occurs_at(rest, sep, j) by {
            if occurs_at(rest, sep, j) {
                assert(s.subrange(j + 1, j + 1 + sep.len()) =~= rest.subrange(j, j + sep.len()));
                assert(occurs_at(s, sep, j + 1));
            }
        }
        if n < s.len() {
            assert(rest.subrange(n - 1, n - 1 + sep.len()) =~= s.subrange(n, n + sep.len()));
        }
        lemma_first_occurrence(rest, sep, n - 1);
    }
}

pub proof fn lemma_first_occurrence_bound(s: Seq<char>, sep: Seq<char>)
    ensures
        0 <= first_occurrence(s, sep) <= s.len(),
        first_occurrence(s, sep) < s.len() ==> occurs_at(s, sep, first_occurrence(s, sep)),
    decreases s.len(),
{
    if s.len() > 0 && !occurs_at(s, sep, 0) {
        let rest = s.drop_first();
        lemma_first_occurrence_bound(rest, sep);
        let n = first_occurrence(rest, sep);
        if n < rest.len() {
            assert(s.subrange(n + 1, n + 1 + sep.len()) =~= rest.subrange(n, n + sep.len()));
        }
    }
}

/// The pieces of `s` between occurrences of `sep`, which is not empty.
pub open spec fn pieces(s: Seq<char>, sep: Seq<char>) -> Seq<Seq<char>>
    decreases s.len(),
    via pieces_shrink
{
    let n = first_occurrence(s, sep);
    if sep.len() == 0 || n >= s.len() {
        seq![s]
    } else {
        seq![s.take(n)] + pieces(s.skip(n + sep.len()), sep)
    }
}

#[via_fn]
proof fn pieces_shrink(s: Seq<char>, sep: Seq<char>) {
    lemma_first_occurrence_bound(s, sep);
}

/// The position of the first occurrence of `sep` in `s` at or behind `from`, or
/// the length of `s`.
fn find_from(s: &Vec<char>, sep: &Vec<char>, from: usize) -> (r: usize)
    requires
        from <= s.len(),
        sep.len() > 0,
    ensures
        from <= r <= s.len(),
        r - from == first_occurrence(s@.skip(from as int), sep@),
        r < s.len() ==> occurs_at(s@, sep@, r as int),
{
    let ghost rest = s@.skip(from as int);
    let mut i: usize = from;
    while i < s.len()
        invariant
            from <= i <= s.len(),
            sep.len() > 0,
            rest == s@.skip(from as int),
            forall|j: int| 0 <= j < i - from ==> !occurs_at(rest, sep@, j),
        decreases s.len() - i,
    {
        assert(i + sep@.len() <= s@.len() ==> s@.subrange(i as int, i + sep@.len())
            =~= rest.subrange(i - from, i - from + sep@.len()));
        if found_at(s, sep, i) {
            proof {
                lemma_first_occurrence(rest, sep@, i - from);
            }
            return i;
        }
        assert(!occurs_at(rest, sep@, i - from));
        i = i + 1;
    }
    proof {
        lemma_first_occurrence(rest, sep@, i - from);
    }
    i
}

/// A copy of the characters `from..to`.
fn slice_of(s: &Vec<char>, from: usize, to: usize) -> (r: Vec<char>)
    requires
        from <= to <= s.len(),
    ensures
        r@ == s@.subrange(from as int, to as int),
{
    let mut out: Vec<char> = Vec::new();
    let mut i: usize = from;
    while i < to
        invariant
            from <= i <= to <= s.len(),
            out@ == s@.subrange(from as int, i as int),
        decreases to - i,
    {
        out.push(s[i]);
        i = i + 1;
        assert(s@.subrange(from as int, i as int) =~= s@.subrange(from as int, i - 1).push(
            s@[i - 1],
        ));
    }
    out
}

/// The pieces of `s` between occurrences of `sep`.
pub fn split(s: &Vec<char>, sep: &Vec<char>) -> (r: Vec<Vec<char>>)
    requires
        sep.len() > 0,
    ensures
        char_seqs(r@) == pieces(s@, sep@),
{
    let mut out: Vec<Vec<char>> = Vec::new();
    let mut pos: usize = 0;
    proof {
        assert(s@.skip(0) =~= s@);
        assert(pieces(s@, sep@) =~= char_seqs(out@) + pieces(s@.skip(0), sep@));
    }
    loop
        invariant
            pos <= s.len(),
            sep.len() > 0,
            pieces(s@, sep@) == char_seqs(out@) + pieces(s@.skip(pos as int), sep@),
        decreases s.len() - pos,
    {
        let ghost rest = s@.skip(pos as int);
        let ghost before = char_seqs(out@);
        let end: usize = find_from(s, sep, pos);
        let piece: Vec<char> = slice_of(s, pos, end);
        out.push(piece);
        assert(char_seqs(out@) =~= before.push(piece@));
        assert(piece@ =~= rest.take(end - pos));
        if end == s.len() {
            assert(piece@ =~= rest);
            assert(char_seqs(out@) =~= pieces(s@, sep@));
            return out;
        }
        let next: usize = end + sep.len();
        assert(rest.skip(end - pos + sep@.len()) =~= s@.skip(next as int));
        assert(pieces(s@, sep@) =~= char_seqs(out@) + pieces(s@.skip(next as int), sep@));
        pos = next;
    }
}

/// A line without the carriage return in front of its line feed.
pub open spec fn without_cr(s: Seq<char>) -> Seq<char> {
    if s.len() > 0 && s.last() == '\r' {
        s.drop_last()
    } else {
        s
    }
}

/// The lines of `s`: a line ends at a line feed, with or without a carriage
/// return before it; a line feed at the very end begins no further line.
pub open spec fn lines(s: Seq<char>) -> Seq<Seq<char>>
    decreases s.len(),
    via lines_shrink
{
    let n = seqs::first_index(s, '\n');
    if s.len() == 0 {
        Seq::empty()
    } else if n >= s.len() {
        seq![s]
    } else {
        seq![without_cr(s.take(n))] + lines(s.skip(n + 1))
    }
}

#[via_fn]
proof fn lines_shrink(s: Seq<char>) {
    seqs::lemma_first_index(s, '\n');
}

/// The lines of `s`.
pub fn lines_of(s: &Vec<char>) -> (r: Vec<Vec<char>>)
    ensures
        char_seqs(r@) == lines(s@),
{
    let mut out: Vec<Vec<char>> = Vec::new();
    let mut pos: usize = 0;
    proof {
        assert(s@.skip(0) =~= s@);
        assert(lines(s@) =~= char_seqs(out@) + lines(s@.skip(0)));
    }
    while pos < s.len()
        invariant
            pos <= s.len(),
            lines(s@) == char_seqs(out@) + lines(s@.skip(pos as int)),
        decreases s.len() - pos,
    {
        let ghost rest = s@.skip(pos as int);
        let ghost before = char_seqs(out@);
        let mut end: usize = pos;
        while end < s.len() && s[end] != '\n'
            invariant
                pos <= end <= s.len(),
                rest == s@.skip(pos as int),
                forall|j: int| 0 <= j < end - pos ==> rest[j] != '\n',
            decreases s.len() - end,
        {
            assert(rest[end - pos] == s@[end as int]);
            end = end + 1;
        }
        proof {
            if end < s.len() {
                assert(rest[end - pos] == s@[end as int]);
            }
            seqs::lemma_first_index_unique(rest, '\n', end - pos);
        }
        let cut: usize = if end < s.len() && end > pos && s[end - 1] == '\r' {
            end - 1
        } else {
            end
        };
        let line: Vec<char> = slice_of(s, pos, cut);
        out.push(line);
        assert(char_seqs(out@) =~= before.push(line@));
        proof {
            assert(rest.take(end - pos) =~= s@.subrange(pos as int, end as int));
            if end < s.len() {
                assert(line@ =~= without_cr(rest.take(end - pos)));
                assert(rest.skip(end - pos + 1) =~= s@.skip(end + 1));
                assert(lines(s@) =~= char_seqs(out@) + lines(s@.skip(end + 1)));
            } else {
                assert(line@ =~= rest);
                assert(s@.skip(end as int) =~= Seq::<char>::empty());
                assert(lines(s@) =~= char_seqs(out@) + lines(s@.skip(end as int)));
            }
        }
        pos =
        if end < s.len() {
            end + 1
        } else {
            end
        };
    }
    proof {
        assert(s@.skip(pos as int) =~= Seq::<char>::empty());
        assert(lines(s@) =~= char_seqs(out@));
    }
    out
}

/// What stands in `line` before the first `sep`.
pub fn before_first(line: &Vec<char>, sep: &Vec<char>) -> (r: Vec<char>)
    requires
        sep.len() > 0,
    ensures
        r@ == line@.take(first_occurrence(line@, sep@)),
{
    assert(line@.skip(0) =~= line@);
    let n: usize = find_from(line, sep, 0);
    let r: Vec<char> = slice_of(line, 0, n);
    assert(r@ =~= line@.take(n as int));
    r
}

// ---------------------------------------------------------------------------
// Laws
// ---------------------------------------------------------------------------
/// Trimming takes white space off both ends and nothing else: what is left is
/// one stretch of the text, everything around it is white space, and it neither
/// begins nor ends with white space. Nothing is left exactly of a text that is
/// white space throughout.
pub proof fn trimming_removes_the_ends(s: Seq<char>)
    ensures
        exists|from: int, to: int|
            {
                &&& 0 <= from <= to <= s.len()
                &&& trimmed(s) == #[trigger] s.subrange(from, to)
                &&& forall|i: int| 0 <= i < from ==> is_space(#[trigger] s[i])
                &&& forall|i: int| to <= i < s.len() ==> is_space(#[trigger] s[i])
            },
        trimmed(s).len() > 0 ==> !is_space(trimmed(s)[0]) && !is_space(trimmed(s).last()),
        trimmed(s).len() == 0 <==> forall|i: int| 0 <= i < s.len() ==> is_space(#[trigger] s[i]),
{
    let from = lemma_trim_front(s);
    let t = trim_front(s);
    let n = lemma_trim_back(t);
    let to = from + n;
    assert(trimmed(s) =~= s.subrange(from, to));
    assert forall|i: int| to <= i < s.len() implies is_space(#[trigger] s[i]) by {
        assert(t[i - from] == s[i]);
    }
    if trimmed(s).len() > 0 {
        assert(trimmed(s)[0] == t[0]);
        assert(!is_space(s[from]));
    }
}

proof fn lemma_trim_front(s: Seq<char>) -> (from: int)
    ensures
        0 <= from <= s.len(),
        trim_front(s) == s.skip(from),
        forall|i: int| 0 <= i < from ==> is_space(#[trigger] s[i]),
        from < s.len() ==> !is_space(s[from]),
    decreases s.len(),
{
    if s.len() > 0 && is_space(s[0]) {
        let rest = s.drop_first();
        let n = lemma_trim_front(rest);
        assert(rest.skip(n) =~= s.skip(n + 1));
        assert forall|i: int| 0 <= i < n + 1 implies is_space(#[trigger] s[i]) by {
            if i > 0 {
                assert(rest[i - 1] == s[i]);
            }
        }
        n + 1
    } else {
        assert(s.skip(0) =~= s);
        0
    }
}

proof fn lemma_trim_back(s: Seq<char>) -> (to: int)
    ensures
        0 <= to <= s.len(),
        trim_back(s) == s.take(to),
        forall|i: int| to <= i < s.len() ==> is_space(#[trigger] s[i]),
        to > 0 ==> !is_space(s[to - 1]),
    decreases s.len(),
{
    if s.len() > 0 && is_space(s.last()) {
        let init = s.drop_last();
        let n = lemma_trim_back(init);
        assert(init.take(n) =~= s.take(n));
        assert forall|i: int| n <= i < s.len() implies is_space(#[trigger] s[i]) by {
            if i < s.len() - 1 {
                assert(init[i] == s[i]);
            }
        }
        n
    } else {
        assert(s.take(s.len() as int) =~= s);
        s.len() as int
    }
}

/// A text put together from pieces with a separator between them.
pub open spec fn joined(parts: Seq<Seq<char>>, sep: Seq<char>) -> Seq<char>
    decreases parts.len(),
{
    if parts.len() == 0 {
        Seq::empty()
    } else if parts.len() == 1 {
        parts[0]
    } else {
        parts[0] + sep + joined(parts.drop_first(), sep)
    }
}

/// Splitting loses nothing: the pieces, with the separator between them, are the
/// text again, and no piece holds the separator.
pub proof fn splitting_loses_nothing(s: Seq<char>, sep: Seq<char>)
    requires
        sep.len() > 0,
    ensures
        pieces(s, sep).len() > 0,
        joined(pieces(s, sep), sep) == s,
        forall|k: int, i: int|
            0 <= k < pieces(s, sep).len() ==> !#[trigger] occurs_at(pieces(s, sep)[k], sep, i),
    decreases s.len(),
{
    let n = first_occurrence(s, sep);
    lemma_first_occurrence_bound(s, sep);
    lemma_nothing_before(s, sep);
    let parts = pieces(s, sep);
    if n < s.len() {
        let rest = s.skip(n + sep.len());
        splitting_loses_nothing(rest, sep);
        let others = pieces(rest, sep);
        assert(parts.drop_first() =~= others);
        assert(s.subrange(n, n + sep.len()) == sep);
        assert(s.take(n) + sep + rest =~= s) by {
            assert(s =~= s.take(n) + s.subrange(n, n + sep.len()) + rest);
        }
        assert forall|k: int, i: int| 0 <= k < parts.len() implies !#[trigger] occurs_at(
            parts[k],
            sep,
            i,
        ) by {
            if k == 0 {
                if occurs_at(s.take(n), sep, i) {
                    assert(s.take(n).subrange(i, i + sep.len()) =~= s.subrange(i, i + sep.len()));
                    assert(occurs_at(s, sep, i));
                }
            } else {
                assert(parts[k] == others[k - 1]);
                assert(!occurs_at(others[k - 1], sep, i));
            }
        }
    } else {
        assert forall|k: int, i: int| 0 <= k < parts.len() implies !#[trigger] occurs_at(
            parts[k],
            sep,
            i,
        ) by {
            if occurs_at(s, sep, i) {
                assert(i < s.len());
            }
        }
    }
}

/// The separator stands nowhere before its first occurrence.
pub proof fn lemma_nothing_before(s: Seq<char>, sep: Seq<char>)
    requires
        sep.len() > 0,
    ensures
        forall|i: int| i < first_occurrence(s, sep) ==> !#[trigger] occurs_at(s, sep, i),
    decreases s.len(),
{
    if s.len() > 0 && !occurs_at(s, sep, 0) {
        let rest = s.drop_first();
        lemma_nothing_before(rest, sep);
        assert forall|i: int| i < first_occurrence(s, sep) implies !#[trigger] occurs_at(
            s,
            sep,
            i,
        ) by {
            if i > 0 && occurs_at(s, sep, i) {
                assert(rest.subrange(i - 1, i - 1 + sep.len()) =~= s.subrange(i, i + sep.len()));
                assert(occurs_at(rest, sep, i - 1));
            }
        }
    }
}

/// No line of a text holds a line feed, and a text without one is a single line.
pub proof fn lines_end_at_line_feeds(s: Seq<char>)
    ensures
        forall|k: int| 0 <= k < lines(s).len() ==> !(#[trigger] lines(s)[k]).contains('\n'),
        s.len() == 0 <==> lines(s).len() == 0,
        s.len() > 0 && !s.contains('\n') ==> lines(s) == seq![s],
    decreases s.len(),
{
    seqs::lemma_first_index(s, '\n');
    let n = seqs::first_index(s, '\n');
    if s.len() > 0 && n < s.len() {
        let rest = s.skip(n + 1);
        lines_end_at_line_feeds(rest);
        let others = lines(rest);
        assert(s[n] == '\n');
        assert forall|k: int| 0 <= k < lines(s).len() implies !(#[trigger] lines(s)[k]).contains(
            '\n',
        ) by {
            if k == 0 {
                assert forall|i: int| 0 <= i < n implies s[i] != '\n' by {}
                assert forall|i: int| 0 <= i < lines(s)[0].len() implies lines(s)[0][i] != '\n' by {
                    assert(lines(s)[0][i] == s[i]);
                }
            } else {
                assert(lines(s)[k] == others[k - 1]);
            }
        }
    }
}

/// Lower case changes the letters A to Z, each to its small form, and leaves
/// every other character alone.
pub proof fn lower_case_changes_letters_only(s: Seq<char>, i: int)
    requires
        0 <= i < s.len(),
    ensures
        lower_text(s).len() == s.len(),
        'A' <= s[i] <= 'Z' ==> lower_text(s)[i] as int - 'a' as int == s[i] as int - 'A' as int,
        !('A' <= s[i] <= 'Z') ==> lower_text(s)[i] == s[i],
        lower_text(lower_text(s)) == lower_text(s),
{
    assert(lower_text(lower_text(s)) =~= lower_text(s));
}

/// A line goes up to its line feed, without the carriage return in front of it,
/// and the lines behind the line feed follow.
pub proof fn lines_follow_one_another(a: Seq<char>, b: Seq<char>)
    requires
        !a.contains('\n'),
    ensures
        lines(a + seq!['\n'] + b) == seq![
            if a.len() > 0 && a.last() == '\r' {
                a.drop_last()
            } else {
                a
            },
        ] + lines(b),
{
    let s = a + seq!['\n'] + b;
    let n = a.len() as int;
    assert forall|j: int| 0 <= j < n implies s[j] != '\n' by {
        assert(s[j] == a[j]);
        assert(a.contains(a[j]));
    }
    assert(s[n] == '\n');
    seqs::lemma_first_index_unique(s, '\n', n);
    assert(s.take(n) =~= a);
    assert(s.skip(n + 1) =~= b);
}

/// A text begins with what stands in front of it, and holds what stands anywhere
/// in it; a text is no longer than one that holds it.
pub proof fn searching_finds_what_is_there(a: Seq<char>, p: Seq<char>, b: Seq<char>, s: Seq<char>)
    ensures
        begins_with(p + b, p),
        holds(a + p + b, p),
        begins_with(s, p) ==> s.len() >= p.len() && s == p + s.skip(p.len() as int),
        holds(s, p) ==> exists|x: Seq<char>, y: Seq<char>| s == #[trigger] (x + p + y),
{
    assert((p + b).subrange(0, p.len() as int) =~= p);
    let n = a.len() as int;
    assert((a + p + b).subrange(n, n + p.len()) =~= p);
    assert(occurs_at(a + p + b, p, n));
    if begins_with(s, p) {
        assert(s =~= s.subrange(0, p.len() as int) + s.skip(p.len() as int));
    }
    if holds(s, p) {
        let i = choose|i: int| occurs_at(s, p, i);
        assert(s =~= s.take(i) + s.subrange(i, i + p.len()) + s.skip(i + p.len()));
    }
}

/// The white space characters, by their code points.
pub proof fn white_space_by_code_point(c: char)
    ensures
        is_space(c) <==> {
            let n = c as int;
            9 <= n <= 13 || n == 32 || n == 0x85 || n == 0xa0 || n == 0x1680 || 0x2000 <= n <= 0x200a
                || n == 0x2028 || n == 0x2029 || n == 0x202f || n == 0x205f || n == 0x3000
        },
{
}

} // verus!
