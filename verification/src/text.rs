//! Character sequences: the model of every string in this crate, and the
//! verified routines that work on it.
//!
//! A string is viewed as its `Seq<char>`. Positions are counted in characters,
//! so a position found in a text can be used to cut or extend that text
//! without any thought for its encoding.

use vstd::prelude::*;
use vstd::string::*;

verus! {

/// Whether `c` carries the Unicode `White_Space` property, as
/// `char::is_whitespace` decides it.
pub uninterp spec fn white_space(c: char) -> bool;

/// `char::is_whitespace`: trusted to be a fixed property of the character.
/// Nothing is claimed about which characters have it.
#[verifier::external_body]
fn is_space(c: char) -> (r: bool)
    ensures
        r == white_space(c),
{
    c.is_whitespace()
}

/// The texts of a list of strings.
pub open spec fn texts(v: Seq<String>) -> Seq<Seq<char>> {
    Seq::new(v.len(), |i: int| v[i]@)
}

/// How many white-space characters `s` starts with.
pub open spec fn leading_space(s: Seq<char>) -> nat
    decreases s.len(),
{
    if s.len() > 0 && white_space(s.first()) {
        1 + leading_space(s.drop_first())
    } else {
        0
    }
}

/// How many white-space characters `s` ends with.
pub open spec fn trailing_space(s: Seq<char>) -> nat
    decreases s.len(),
{
    if s.len() > 0 && white_space(s.last()) {
        1 + trailing_space(s.drop_last())
    } else {
        0
    }
}

/// `s` without its leading and trailing white space.
pub open spec fn trimmed(s: Seq<char>) -> Seq<char> {
    if leading_space(s) == s.len() {
        Seq::empty()
    } else {
        s.subrange(leading_space(s) as int, s.len() - trailing_space(s))
    }
}

/// Strict lexicographic order by code point: the order of `str` and `String`.
pub open spec fn precedes(a: Seq<char>, b: Seq<char>) -> bool
    decreases a.len(),
{
    if b.len() == 0 {
        false
    } else if a.len() == 0 {
        true
    } else if a.first() != b.first() {
        a.first() < b.first()
    } else {
        precedes(a.drop_first(), b.drop_first())
    }
}

/// Every element of `s` precedes all that follow it.
pub open spec fn ascending(s: Seq<Seq<char>>) -> bool {
    forall|i: int, j: int| 0 <= i < j < s.len() ==> precedes(s[i], s[j])
}

/// `pat` stands in `s` at position `i`.
pub open spec fn occurs_at(s: Seq<char>, pat: Seq<char>, i: int) -> bool {
    &&& 0 <= i
    &&& i + pat.len() <= s.len()
    &&& s.subrange(i, i + pat.len()) == pat
}

/// `pat` stands somewhere in `s`.
pub open spec fn contains(s: Seq<char>, pat: Seq<char>) -> bool {
    exists|i: int| occurs_at(s, pat, i)
}

/// `pat` stands in `s` at `i` and nowhere before.
pub open spec fn first_at(s: Seq<char>, pat: Seq<char>, i: int) -> bool {
    &&& occurs_at(s, pat, i)
    &&& forall|j: int| 0 <= j < i ==> !occurs_at(s, pat, j)
}

/// The leftmost position of `pat` in `s`; meaningful where `s` contains `pat`.
pub open spec fn first_occurrence(s: Seq<char>, pat: Seq<char>) -> int {
    choose|i: int| first_at(s, pat, i)
}

/// `s` with `piece` put in before position `at`.
pub open spec fn inserted(s: Seq<char>, at: int, piece: Seq<char>) -> Seq<char> {
    s.subrange(0, at) + piece + s.subrange(at, s.len() as int)
}

/// The pieces of `s` between occurrences of `sep`: one more than there are
/// separators, so never none.
pub open spec fn pieces(s: Seq<char>, sep: char) -> Seq<Seq<char>>
    decreases s.len(),
{
    if s.len() == 0 {
        seq![Seq::empty()]
    } else {
        let before = pieces(s.drop_last(), sep);
        if s.last() == sep {
            before.push(Seq::empty())
        } else {
            before.update(before.len() - 1, before.last().push(s.last()))
        }
    }
}

/// The elements of `parts` in order, with `sep` before each but the first.
pub open spec fn joined(parts: Seq<Seq<char>>, sep: Seq<char>) -> Seq<char>
    decreases parts.len(),
{
    if parts.len() == 0 {
        Seq::empty()
    } else {
        joined(parts.drop_last(), sep) + (if parts.len() > 1 {
            sep
        } else {
            Seq::empty()
        }) + parts.last()
    }
}

/// No text precedes itself.
pub proof fn lemma_precedes_irreflexive(a: Seq<char>)
    ensures
        !precedes(a, a),
    decreases a.len(),
{
    if a.len() > 0 {
        lemma_precedes_irreflexive(a.drop_first());
    }
}

/// The order is transitive.
pub proof fn lemma_precedes_transitive(a: Seq<char>, b: Seq<char>, c: Seq<char>)
    requires
        precedes(a, b),
        precedes(b, c),
    ensures
        precedes(a, c),
    decreases a.len(),
{
    if a.len() > 0 && a.first() == b.first() && b.first() == c.first() {
        lemma_precedes_transitive(a.drop_first(), b.drop_first(), c.drop_first());
    }
}

/// Two different texts are ordered one way or the other.
pub proof fn lemma_precedes_total(a: Seq<char>, b: Seq<char>)
    ensures
        a == b || precedes(a, b) || precedes(b, a),
    decreases a.len(),
{
    if a.len() == 0 || b.len() == 0 {
    } else if a.first() == b.first() {
        lemma_precedes_total(a.drop_first(), b.drop_first());
        if a.drop_first() == b.drop_first() {
            assert(a =~= seq![a.first()] + a.drop_first());
        }
    }
}

/// Never both ways.
pub proof fn lemma_precedes_asymmetric(a: Seq<char>, b: Seq<char>)
    requires
        precedes(a, b),
    ensures
        !precedes(b, a),
{
    if precedes(b, a) {
        lemma_precedes_transitive(a, b, a);
        lemma_precedes_irreflexive(a);
    }
}

/// Past a common prefix, the order of two texts is the order of what remains.
pub proof fn lemma_precedes_skip(a: Seq<char>, b: Seq<char>, n: int)
    requires
        0 <= n <= a.len(),
        n <= b.len(),
        a.take(n) == b.take(n),
    ensures
        precedes(a, b) == precedes(a.skip(n), b.skip(n)),
    decreases n,
{
    if n == 0 {
        assert(a.skip(0) =~= a);
        assert(b.skip(0) =~= b);
    } else {
        assert(a.first() == a.take(n)[0]);
        assert(a.drop_first().take(n - 1) =~= a.take(n).drop_first());
        assert(b.drop_first().take(n - 1) =~= b.take(n).drop_first());
        lemma_precedes_skip(a.drop_first(), b.drop_first(), n - 1);
        assert(a.drop_first().skip(n - 1) =~= a.skip(n));
        assert(b.drop_first().skip(n - 1) =~= b.skip(n));
    }
}

/// The characters of `s`, decoded once so that they can be indexed.
pub fn chars_of(s: &str) -> (v: Vec<char>)
    ensures
        v@ == s@,
{
    broadcast use vstd::string::axiom_spec_iter;

    let mut v: Vec<char> = Vec::new();
    for c in it: s.chars()
        invariant
            it.seq() == s@,
            v@ == s@.take(it.index()),
    {
        v.push(c);
    }
    v
}

/// Whether `a` and `b` are the same text.
pub fn same(a: &str, b: &str) -> (r: bool)
    ensures
        r == (a@ == b@),
{
    let x = chars_of(a);
    let y = chars_of(b);
    if x.len() != y.len() {
        return false;
    }
    let mut i: usize = 0;
    while i < x.len()
        invariant
            i <= x.len(),
            x.len() == y.len(),
            x@ == a@,
            y@ == b@,
            forall|k: int| 0 <= k < i ==> x@[k] == y@[k],
        decreases x.len() - i,
    {
        if x[i] != y[i] {
            return false;
        }
        i += 1;
    }
    assert(x@ =~= y@);
    true
}

/// Whether `a` sorts strictly before `b`.
pub fn less(a: &str, b: &str) -> (r: bool)
    ensures
        r == precedes(a@, b@),
{
    let x = chars_of(a);
    let y = chars_of(b);
    let mut i: usize = 0;
    while i < x.len() && i < y.len() && x[i] == y[i]
        invariant
            i <= x.len(),
            i <= y.len(),
            x@.take(i as int) == y@.take(i as int),
        decreases x.len() - i,
    {
        i += 1;
    }
    proof {
        lemma_precedes_skip(x@, y@, i as int);
    }
    if i == y.len() {
        false
    } else if i == x.len() {
        true
    } else {
        x[i] < y[i]
    }
}

/// Where the first `n` characters of `s` are white space and the next is
/// not, `s` starts with `n` white-space characters.
proof fn lemma_leading_space(s: Seq<char>, n: int)
    requires
        0 <= n <= s.len(),
        forall|k: int| 0 <= k < n ==> white_space(s[k]),
        n == s.len() || !white_space(s[n]),
    ensures
        leading_space(s) == n,
    decreases n,
{
    if n > 0 {
        let rest = s.drop_first();
        lemma_leading_space(rest, n - 1);
    }
}

/// The same from the end: where the last `n` characters of `s` are white
/// space and the one before is not, `s` ends with `n` of them.
proof fn lemma_trailing_space(s: Seq<char>, n: int)
    requires
        0 <= n <= s.len(),
        forall|k: int| s.len() - n <= k < s.len() ==> white_space(s[k]),
        n == s.len() || !white_space(s[s.len() - n - 1]),
    ensures
        trailing_space(s) == n,
    decreases n,
{
    if n > 0 {
        let rest = s.drop_last();
        lemma_trailing_space(rest, n - 1);
    }
}

/// `s` without the white space at its two ends.
pub fn trim(s: &str) -> (r: String)
    ensures
        r@ == trimmed(s@),
{
    let v = chars_of(s);
    let mut start: usize = 0;
    while start < v.len() && is_space(v[start])
        invariant
            start <= v.len(),
            forall|k: int| 0 <= k < start ==> white_space(v@[k]),
        decreases v.len() - start,
    {
        start += 1;
    }
    proof {
        lemma_leading_space(v@, start as int);
    }
    if start == v.len() {
        return String::new();
    }
    let mut end: usize = v.len();
    while is_space(v[end - 1])
        invariant
            start < end <= v.len(),
            !white_space(v@[start as int]),
            forall|k: int| end <= k < v.len() ==> white_space(v@[k]),
        decreases end,
    {
        end -= 1;
    }
    proof {
        lemma_trailing_space(v@, v.len() - end);
    }
    s.substring_char(start, end).to_owned()
}

/// A text is found at the position where it first occurs, and is then
/// contained.
pub proof fn lemma_first_occurrence(s: Seq<char>, pat: Seq<char>, i: int)
    requires
        first_at(s, pat, i),
    ensures
        contains(s, pat),
        first_occurrence(s, pat) == i,
{
    let j = first_occurrence(s, pat);
}

/// A text that is contained has a first occurrence.
pub proof fn lemma_contains_first(s: Seq<char>, pat: Seq<char>)
    requires
        contains(s, pat),
    ensures
        first_at(s, pat, first_occurrence(s, pat)),
{
    let w = choose|i: int| occurs_at(s, pat, i);
    lemma_first_before(s, pat, w);
}

/// Below any occurrence there is a first one.
proof fn lemma_first_before(s: Seq<char>, pat: Seq<char>, w: int)
    requires
        occurs_at(s, pat, w),
    ensures
        exists|i: int| first_at(s, pat, i),
    decreases w,
{
    if exists|j: int| 0 <= j < w && occurs_at(s, pat, j) {
        let j = choose|j: int| 0 <= j < w && occurs_at(s, pat, j);
        lemma_first_before(s, pat, j);
    } else {
        assert(first_at(s, pat, w));
    }
}

/// Whether `pat` stands in `hay` at position `at`.
fn matches_at(hay: &Vec<char>, pat: &Vec<char>, at: usize) -> (r: bool)
    requires
        at + pat.len() <= hay.len(),
    ensures
        r == occurs_at(hay@, pat@, at as int),
{
    let mut k: usize = 0;
    while k < pat.len()
        invariant
            k <= pat.len(),
            at + pat.len() <= hay.len(),
            forall|m: int| 0 <= m < k ==> hay@[at + m] == pat@[m],
        decreases pat.len() - k,
    {
        if hay[at + k] != pat[k] {
            return false;
        }
        k += 1;
    }
    assert(hay@.subrange(at as int, at + pat.len()) =~= pat@);
    true
}

/// The position of the first occurrence of `pat` in `hay`, if there is one.
pub fn find(hay: &Vec<char>, pat: &Vec<char>) -> (r: Option<usize>)
    ensures
        match r {
            Some(i) => first_at(hay@, pat@, i as int),
            None => !contains(hay@, pat@),
        },
{
    if pat.len() > hay.len() {
        return None;
    }
    let last = hay.len() - pat.len();
    let mut i: usize = 0;
    loop
        invariant
            last == hay.len() - pat.len(),
            i <= last,
            forall|j: int| 0 <= j < i ==> !occurs_at(hay@, pat@, j),
        decreases last - i,
    {
        if matches_at(hay, pat, i) {
            return Some(i);
        }
        if i == last {
            return None;
        }
        i += 1;
    }
}

/// Whether `pat` stands somewhere in `hay`.
pub fn includes(hay: &Vec<char>, pat: &Vec<char>) -> (r: bool)
    ensures
        r == contains(hay@, pat@),
{
    match find(hay, pat) {
        Some(_) => true,
        None => false,
    }
}

/// `s` with `piece` put in before the character at position `at`.
pub fn insert_at(s: &str, at: usize, piece: &str) -> (r: String)
    requires
        at <= s@.len(),
    ensures
        r@ == inserted(s@, at as int, piece@),
{
    let n = s.unicode_len();
    let mut out = s.substring_char(0, at).to_owned();
    out.append(piece);
    out.append(s.substring_char(at, n));
    out
}

/// The pieces of `s` between occurrences of `sep`.
pub fn split(s: &str, sep: char) -> (parts: Vec<String>)
    ensures
        texts(parts@) == pieces(s@, sep),
{
    let v = chars_of(s);
    let mut parts: Vec<String> = Vec::new();
    let mut start: usize = 0;
    let mut i: usize = 0;
    assert(v@.take(0) =~= Seq::empty());
    while i < v.len()
        invariant
            v@ == s@,
            start <= i <= v.len(),
            pieces(v@.take(i as int), sep) == texts(parts@).push(
                v@.subrange(start as int, i as int),
            ),
        decreases v.len() - i,
    {
        let ghost done = texts(parts@);
        let ghost current = v@.subrange(start as int, i as int);
        assert(v@.take(i + 1).drop_last() =~= v@.take(i as int));
        if v[i] == sep {
            parts.push(s.substring_char(start, i).to_owned());
            start = i + 1;
            assert(v@.subrange(start as int, start as int) =~= Seq::empty());
        } else {
            assert(v@.subrange(start as int, i + 1) =~= current.push(v@[i as int]));
            assert(done.push(current).update(done.len() as int, current.push(v@[i as int]))
                =~= done.push(current.push(v@[i as int])));
        }
        i += 1;
    }
    parts.push(s.substring_char(start, i).to_owned());
    assert(v@.take(i as int) =~= v@);
    parts
}

/// The white space that `s` starts with ends at a character that is none, or
/// at the end of `s`.
pub proof fn lemma_leading_space_stops(s: Seq<char>)
    ensures
        leading_space(s) <= s.len(),
        forall|k: int| 0 <= k < leading_space(s) ==> white_space(s[k]),
        leading_space(s) < s.len() ==> !white_space(s[leading_space(s) as int]),
    decreases s.len(),
{
    if s.len() > 0 && white_space(s.first()) {
        let rest = s.drop_first();
        lemma_leading_space_stops(rest);
        assert forall|k: int| 0 <= k < leading_space(s) implies white_space(s[k]) by {
            if k > 0 {
                assert(s[k] == rest[k - 1]);
            }
        }
    }
}

/// The white space that `s` ends with begins after a character that is none,
/// or at the start of `s`.
pub proof fn lemma_trailing_space_stops(s: Seq<char>)
    ensures
        trailing_space(s) <= s.len(),
        forall|k: int| s.len() - trailing_space(s) <= k < s.len() ==> white_space(s[k]),
        trailing_space(s) < s.len() ==> !white_space(s[s.len() - trailing_space(s) - 1]),
    decreases s.len(),
{
    if s.len() > 0 && white_space(s.last()) {
        let rest = s.drop_last();
        lemma_trailing_space_stops(rest);
        assert forall|k: int| s.len() - trailing_space(s) <= k < s.len() implies white_space(
            s[k],
        ) by {
            if k < s.len() - 1 {
                assert(s[k] == rest[k]);
            }
        }
        if trailing_space(s) < s.len() {
            assert(s[s.len() - trailing_space(s) - 1] == rest[rest.len() - trailing_space(rest)
                - 1]);
        }
    }
}

/// A trimmed text is a stretch of the text it was made of, and where it is
/// not empty it neither starts nor ends with white space.
pub proof fn lemma_trimmed_edges(s: Seq<char>)
    ensures
        trimmed(s).len() <= s.len(),
        trimmed(s).len() > 0 ==> !white_space(trimmed(s).first()) && !white_space(
            trimmed(s).last(),
        ),
{
    lemma_leading_space_stops(s);
    lemma_trailing_space_stops(s);
}

/// Trimming a second time changes nothing.
pub proof fn lemma_trimmed_idempotent(s: Seq<char>)
    ensures
        trimmed(trimmed(s)) == trimmed(s),
{
    lemma_trimmed_edges(s);
}

/// Splitting and joining again with the same separator gives the text back.
pub proof fn lemma_joined_pieces(s: Seq<char>, sep: char)
    ensures
        pieces(s, sep).len() > 0,
        joined(pieces(s, sep), seq![sep]) == s,
    decreases s.len(),
{
    if s.len() == 0 {
        let only = pieces(s, sep);
        assert(joined(only.drop_last(), seq![sep]) =~= Seq::<char>::empty());
    } else {
        let before = pieces(s.drop_last(), sep);
        lemma_joined_pieces(s.drop_last(), sep);
        if s.last() == sep {
            assert(before.push(Seq::empty()).drop_last() =~= before);
        } else {
            let grown = before.update(before.len() - 1, before.last().push(s.last()));
            assert(grown.drop_last() =~= before.drop_last());
            assert(joined(grown, seq![sep]) =~= joined(before, seq![sep]).push(s.last()));
        }
    }
}

/// No piece holds the separator.
pub proof fn lemma_pieces_plain(s: Seq<char>, sep: char)
    ensures
        pieces(s, sep).len() > 0,
        forall|i: int|
            0 <= i < pieces(s, sep).len() ==> !(#[trigger] pieces(s, sep)[i]).contains(sep),
    decreases s.len(),
{
    if s.len() > 0 {
        lemma_pieces_plain(s.drop_last(), sep);
    }
}

/// A text without separators, put behind another, lengthens its last piece.
pub proof fn lemma_pieces_extend(s: Seq<char>, tail: Seq<char>, sep: char)
    requires
        !tail.contains(sep),
    ensures
        pieces(s + tail, sep) == pieces(s, sep).update(
            pieces(s, sep).len() - 1,
            pieces(s, sep).last() + tail,
        ),
    decreases tail.len(),
{
    lemma_pieces_plain(s, sep);
    let base = pieces(s, sep);
    if tail.len() > 0 {
        let shorter = tail.drop_last();
        lemma_pieces_extend(s, shorter, sep);
        assert((s + tail).drop_last() =~= s + shorter);
        let mid = pieces(s + shorter, sep);
        assert(mid.update(mid.len() - 1, mid.last().push(tail.last())) =~= base.update(
            base.len() - 1,
            base.last() + tail,
        )) by {
            assert((base.last() + shorter).push(tail.last()) =~= base.last() + tail);
        }
    }
}

/// The elements of `parts` in order, with `sep` between neighbours.
pub fn join(parts: &Vec<String>, sep: &str) -> (r: String)
    ensures
        r@ == joined(texts(parts@), sep@),
{
    let mut out = String::new();
    let mut i: usize = 0;
    while i < parts.len()
        invariant
            i <= parts.len(),
            out@ == joined(texts(parts@).take(i as int), sep@),
        decreases parts.len() - i,
    {
        assert(texts(parts@).take(i + 1).drop_last() =~= texts(parts@).take(i as int));
        if i > 0 {
            out.append(sep);
        }
        out.append(parts[i].as_str());
        i += 1;
    }
    assert(texts(parts@).take(i as int) =~= texts(parts@));
    out
}

/// `s` filled up on the right with `fill` to `width` characters; as it is
/// where it is that long already.
pub open spec fn padded(s: Seq<char>, fill: char, width: nat) -> Seq<char> {
    if s.len() >= width {
        s
    } else {
        s + Seq::new((width - s.len()) as nat, |i: int| fill)
    }
}

/// `s` filled up on the right to `width` characters with the one character
/// of `unit`.
fn pad_with(s: &str, unit: &str, width: usize) -> (r: String)
    requires
        unit@.len() == 1,
    ensures
        r@ == padded(s@, unit@[0], width as nat),
{
    let mut out = s.to_owned();
    let mut n = s.unicode_len();
    while n < width
        invariant
            unit@.len() == 1,
            s@.len() <= n,
            n <= width || n == s@.len(),
            out@ == s@ + Seq::new((n - s@.len()) as nat, |i: int| unit@[0]),
        decreases width - n,
    {
        out.append(unit);
        n += 1;
    }
    out
}

/// `s` filled up on the right with spaces to `width` characters.
pub fn pad(s: &str, width: usize) -> (r: String)
    ensures
        r@ == padded(s@, ' ', width as nat),
{
    proof {
        reveal_strlit(" ");
    }
    pad_with(s, " ", width)
}

/// A rule of `width` dashes.
pub fn rule(width: usize) -> (r: String)
    ensures
        r@ == padded(Seq::empty(), '-', width as nat),
{
    proof {
        reveal_strlit("-");
        reveal_strlit("");
    }
    pad_with("", "-", width)
}

/// `line` without the carriage return at its end, if it has one.
pub open spec fn without_return(line: Seq<char>) -> Seq<char> {
    if line.len() > 0 && line.last() == '\r' {
        line.drop_last()
    } else {
        line
    }
}

/// The lines of `s`, as `str::lines` gives them. A line ends with a line
/// feed, which may follow a carriage return; neither belongs to the line.
/// What follows the last line feed is a line too, unless it is empty.
pub open spec fn text_lines(s: Seq<char>) -> Seq<Seq<char>> {
    let parts = pieces(s, '\n');
    let ended = Seq::new((parts.len() - 1) as nat, |i: int| without_return(parts[i]));
    if parts.last().len() == 0 {
        ended
    } else {
        ended.push(parts.last())
    }
}

/// The lines of `s`.
pub fn lines(s: &str) -> (r: Vec<String>)
    ensures
        texts(r@) == text_lines(s@),
{
    let parts = split(s, '\n');
    proof {
        lemma_joined_pieces(s@, '\n');
    }
    let ghost model = pieces(s@, '\n');
    let mut out: Vec<String> = Vec::new();
    let last = parts.len() - 1;
    let mut i: usize = 0;
    while i < last
        invariant
            i <= last,
            last == parts.len() - 1,
            model.len() == parts.len(),
            forall|k: int| 0 <= k < parts.len() ==> model[k] == parts@[k]@,
            out.len() == i,
            forall|k: int| 0 <= k < i ==> out@[k]@ == without_return(model[k]),
        decreases last - i,
    {
        let part = parts[i].as_str();
        let chars = chars_of(part);
        let n = chars.len();
        if n > 0 && chars[n - 1] == '\r' {
            out.push(part.substring_char(0, n - 1).to_owned());
        } else {
            out.push(parts[i].clone());
        }
        i += 1;
    }
    if parts[last].as_str().unicode_len() > 0 {
        out.push(parts[last].clone());
    }
    out
}

} // verus!
