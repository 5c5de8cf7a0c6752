//! Merging dependency tokens from up to two sources into one canonical set.
//!
//! Every token is trimmed; what is left empty is dropped; the rest is put in
//! ascending order with each token once. The result depends on nothing but
//! which tokens were offered, not on their order or on which source gave them.

use crate::text::{
    ascending, join, joined, lemma_precedes_asymmetric, lemma_precedes_irreflexive,
    lemma_precedes_total, lemma_precedes_transitive, lemma_trimmed_edges, less, precedes, same,
    texts, trim, trimmed, white_space,
};
use vstd::prelude::*;
use vstd::string::*;

verus! {

/// The separator of a rendered set.
pub open spec fn comma() -> Seq<char> {
    seq![',']
}

/// The tokens of both sources in one sequence, the additional ones last.
pub open spec fn candidates(
    primary: Seq<Seq<char>>,
    additional: Option<Seq<Seq<char>>>,
) -> Seq<Seq<char>> {
    match additional {
        Some(more) => primary + more,
        None => primary,
    }
}

/// Whether `token` is the trimmed form of one of `raw`, and not empty.
pub open spec fn offered(raw: Seq<Seq<char>>, token: Seq<char>) -> bool {
    &&& token.len() > 0
    &&& exists|k: int| 0 <= k < raw.len() && #[trigger] trimmed(raw[k]) == token
}

/// A token as a resolved set holds it: not empty, no white space at its ends.
pub open spec fn clean(token: Seq<char>) -> bool {
    &&& token.len() > 0
    &&& !white_space(token.first())
    &&& !white_space(token.last())
}

/// `set` is in ascending order without repetition and holds exactly the
/// tokens that `raw` offers.
pub open spec fn resolves(set: Seq<Seq<char>>, raw: Seq<Seq<char>>) -> bool {
    &&& ascending(set)
    &&& forall|token: Seq<char>| set.contains(token) <==> offered(raw, token)
}

/// The one sequence that resolves `raw`.
pub open spec fn resolution(raw: Seq<Seq<char>>) -> Seq<Seq<char>> {
    choose|set: Seq<Seq<char>>| resolves(set, raw)
}

/// How many tokens at the head of `set` precede `token`: its place in an
/// ascending sequence.
pub open spec fn rank(set: Seq<Seq<char>>, token: Seq<char>) -> nat
    decreases set.len(),
{
    if set.len() > 0 && precedes(set.first(), token) {
        1 + rank(set.drop_first(), token)
    } else {
        0
    }
}

/// `set` with `token` at its place, unless it is there already.
pub open spec fn with_token(set: Seq<Seq<char>>, token: Seq<char>) -> Seq<Seq<char>> {
    if set.contains(token) {
        set
    } else {
        set.insert(rank(set, token) as int, token)
    }
}

/// The tokens that `raw` offers, gathered one after the other into an
/// ascending sequence.
pub open spec fn gathered(raw: Seq<Seq<char>>) -> Seq<Seq<char>>
    decreases raw.len(),
{
    if raw.len() == 0 {
        Seq::empty()
    } else if trimmed(raw.last()).len() == 0 {
        gathered(raw.drop_last())
    } else {
        with_token(gathered(raw.drop_last()), trimmed(raw.last()))
    }
}

/// Where the first `n` tokens precede `token` and the next does not, `n` is
/// its rank.
proof fn lemma_rank(set: Seq<Seq<char>>, token: Seq<char>, n: int)
    requires
        0 <= n <= set.len(),
        forall|k: int| 0 <= k < n ==> precedes(set[k], token),
        n == set.len() || !precedes(set[n], token),
    ensures
        rank(set, token) == n,
    decreases n,
{
    if n > 0 {
        let rest = set.drop_first();
        lemma_rank(rest, token, n - 1);
    }
}

/// The rank lies within the sequence, behind tokens that precede `token` and
/// before one that does not.
pub proof fn lemma_rank_bounds(set: Seq<Seq<char>>, token: Seq<char>)
    ensures
        rank(set, token) <= set.len(),
        forall|k: int| 0 <= k < rank(set, token) ==> precedes(set[k], token),
        rank(set, token) < set.len() ==> !precedes(set[rank(set, token) as int], token),
    decreases set.len(),
{
    if set.len() > 0 && precedes(set.first(), token) {
        let rest = set.drop_first();
        lemma_rank_bounds(rest, token);
        assert forall|k: int| 0 <= k < rank(set, token) implies precedes(set[k], token) by {
            if k > 0 {
                assert(set[k] == rest[k - 1]);
            }
        }
    }
}

/// An ascending sequence stays ascending when a token is put at its place,
/// and holds that token besides what it held.
pub proof fn lemma_with_token(set: Seq<Seq<char>>, token: Seq<char>)
    requires
        ascending(set),
    ensures
        ascending(with_token(set, token)),
        forall|t: Seq<char>| with_token(set, token).contains(t) <==> set.contains(t) || t == token,
{
    if !set.contains(token) {
        lemma_rank_bounds(set, token);
        let at = rank(set, token) as int;
        let after = set.insert(at, token);
        assert forall|i: int, j: int| 0 <= i < j < after.len() implies precedes(
            after[i],
            after[j],
        ) by {
            if i == at {
                lemma_precedes_total(set[at], token);
                if j - 1 > at {
                    lemma_precedes_transitive(token, set[at], set[j - 1]);
                }
            }
        }
        assert forall|t: Seq<char>| after.contains(t) <==> set.contains(t) || t == token by {
            if set.contains(t) {
                let k = choose|k: int| 0 <= k < set.len() && set[k] == t;
                if k < at {
                    assert(after[k] == t);
                } else {
                    assert(after[k + 1] == t);
                }
            }
            if t == token {
                assert(after[at] == t);
            }
        }
    }
}

/// Gathering resolves: every list of tokens has a resolution.
pub proof fn lemma_gathered_resolves(raw: Seq<Seq<char>>)
    ensures
        resolves(gathered(raw), raw),
    decreases raw.len(),
{
    if raw.len() > 0 {
        let before = raw.drop_last();
        let token = trimmed(raw.last());
        lemma_gathered_resolves(before);
        lemma_with_token(gathered(before), token);
        assert forall|t: Seq<char>| offered(raw, t) <==> offered(before, t) || (t.len() > 0 && t
            == token) by {
            if offered(raw, t) {
                let k = choose|k: int| 0 <= k < raw.len() && #[trigger] trimmed(raw[k]) == t;
                if k < before.len() {
                    assert(trimmed(before[k]) == t);
                }
            }
        }
    }
}

/// An ascending sequence holds nothing twice.
pub proof fn lemma_ascending_no_duplicates(set: Seq<Seq<char>>)
    requires
        ascending(set),
    ensures
        set.no_duplicates(),
{
    assert forall|i: int, j: int| 0 <= i < set.len() && 0 <= j < set.len() && i != j implies set[i]
        != set[j] by {
        lemma_precedes_irreflexive(set[i]);
    }
}

/// Two ascending sequences with the same elements are the same sequence.
pub proof fn lemma_ascending_unique(a: Seq<Seq<char>>, b: Seq<Seq<char>>)
    requires
        ascending(a),
        ascending(b),
        forall|t: Seq<char>| a.contains(t) <==> b.contains(t),
    ensures
        a == b,
    decreases a.len(),
{
    if a.len() == 0 {
        if b.len() > 0 {
            assert(b.contains(b[0]));
        }
    } else {
        assert(a.contains(a[0]));
        let j = choose|j: int| 0 <= j < b.len() && b[j] == a[0];
        assert(b.contains(b[0]));
        let i = choose|i: int| 0 <= i < a.len() && a[i] == b[0];
        if i > 0 {
            if j > 0 {
                lemma_precedes_asymmetric(a[0], b[0]);
            } else {
                lemma_precedes_irreflexive(a[0]);
            }
        }
        let a1 = a.drop_first();
        let b1 = b.drop_first();
        assert forall|t: Seq<char>| a1.contains(t) <==> b1.contains(t) by {
            lemma_precedes_irreflexive(a[0]);
            if a1.contains(t) {
                assert(a.contains(t));
                let m = choose|m: int| 0 <= m < b.len() && b[m] == t;
                assert(b1[m - 1] == t);
            }
            if b1.contains(t) {
                assert(b.contains(t));
                let m = choose|m: int| 0 <= m < a.len() && a[m] == t;
                assert(a1[m - 1] == t);
            }
        }
        assert(ascending(a1));
        assert(ascending(b1));
        lemma_ascending_unique(a1, b1);
        assert(a =~= seq![a[0]] + a1);
    }
}

/// What resolves a list of tokens is its resolution: there is no other.
pub proof fn lemma_resolution(set: Seq<Seq<char>>, raw: Seq<Seq<char>>)
    requires
        resolves(set, raw),
    ensures
        resolution(raw) == set,
{
    lemma_ascending_unique(resolution(raw), set);
}

/// The resolution of a list of tokens resolves it, whatever the list.
pub proof fn lemma_resolution_resolves(raw: Seq<Seq<char>>)
    ensures
        resolves(resolution(raw), raw),
        resolution(raw) == gathered(raw),
{
    lemma_gathered_resolves(raw);
    lemma_resolution(gathered(raw), raw);
}

/// What merging two sources gives: a sequence in ascending order that holds
/// no token twice and holds exactly the tokens that one of the two offers,
/// trimmed and not empty.
pub proof fn lemma_merge_law(primary: Seq<Seq<char>>, additional: Seq<Seq<char>>)
    ensures
        ascending(resolution(candidates(primary, Some(additional)))),
        resolution(candidates(primary, Some(additional))).no_duplicates(),
        forall|token: Seq<char>|
            resolution(candidates(primary, Some(additional))).contains(token) <==> offered(
                primary,
                token,
            ) || offered(additional, token),
{
    let merged = resolution(candidates(primary, Some(additional)));
    lemma_resolution_resolves(candidates(primary, Some(additional)));
    lemma_ascending_no_duplicates(merged);
    assert forall|token: Seq<char>|
        merged.contains(token) <==> offered(primary, token) || offered(additional, token) by {
        lemma_offered_of_both(primary, additional, token);
    }
}

/// Every token of a resolved set is clean: not empty, and trimmed.
pub proof fn lemma_resolved_clean(set: Seq<Seq<char>>, raw: Seq<Seq<char>>)
    requires
        resolves(set, raw),
    ensures
        forall|i: int| 0 <= i < set.len() ==> clean(#[trigger] set[i]),
{
    assert forall|i: int| 0 <= i < set.len() implies clean(#[trigger] set[i]) by {
        assert(set.contains(set[i]));
        let k = choose|k: int| 0 <= k < raw.len() && #[trigger] trimmed(raw[k]) == set[i];
        lemma_trimmed_edges(raw[k]);
    }
}

/// The resolution does not depend on the order of the tokens, nor on how
/// often one is given: lists that offer the same tokens resolve alike.
pub proof fn lemma_resolution_by_offer(
    raw: Seq<Seq<char>>,
    other: Seq<Seq<char>>,
    set: Seq<Seq<char>>,
)
    requires
        resolves(set, raw),
        forall|token: Seq<char>| offered(raw, token) <==> offered(other, token),
    ensures
        resolves(set, other),
        resolution(other) == resolution(raw),
{
    lemma_resolution(set, raw);
    lemma_resolution(set, other);
}

/// No additional list and an empty additional list are the same thing.
pub proof fn lemma_absent_is_empty(primary: Seq<Seq<char>>)
    ensures
        candidates(primary, None) == candidates(primary, Some(Seq::empty())),
        resolution(candidates(primary, None)) == resolution(
            candidates(primary, Some(Seq::empty())),
        ),
{
}

/// An ordered, deduplicated set of dependency tokens.
#[derive(Debug, PartialEq, Eq)]
pub struct ResolvedDependencySet {
    tokens: Vec<String>,
}

impl View for ResolvedDependencySet {
    type V = Seq<Seq<char>>;

    closed spec fn view(&self) -> Seq<Seq<char>> {
        texts(self.tokens@)
    }
}

impl ResolvedDependencySet {
    /// Ascending order, which excludes repetition, and clean tokens.
    pub open spec fn well_formed(&self) -> bool {
        &&& ascending(self@)
        &&& forall|i: int| 0 <= i < self@.len() ==> clean(#[trigger] self@[i])
    }

    /// The set without any token.
    pub fn new() -> (set: ResolvedDependencySet)
        ensures
            set@ == Seq::<Seq<char>>::empty(),
            set.well_formed(),
    {
        ResolvedDependencySet { tokens: Vec::new() }
    }

    /// The number of tokens.
    pub fn len(&self) -> (n: usize)
        ensures
            n == self@.len(),
    {
        self.tokens.len()
    }

    /// The tokens, in order.
    pub fn tokens(&self) -> (tokens: &Vec<String>)
        ensures
            texts(tokens@) == self@,
    {
        &self.tokens
    }

    /// Whether `token` is in the set.
    pub fn has(&self, token: &str) -> (r: bool)
        ensures
            r == self@.contains(token@),
    {
        let mut i: usize = 0;
        while i < self.tokens.len()
            invariant
                i <= self.tokens.len(),
                forall|k: int| 0 <= k < i ==> self@[k] != token@,
            decreases self.tokens.len() - i,
        {
            if same(self.tokens[i].as_str(), token) {
                assert(self@[i as int] == token@);
                return true;
            }
            i += 1;
        }
        false
    }

    /// Puts `token` where the order wants it, unless the set already has it.
    fn place(&mut self, token: String)
        requires
            old(self).well_formed(),
            clean(token@),
        ensures
            final(self).well_formed(),
            final(self)@ == with_token(old(self)@, token@),
    {
        let mut at: usize = 0;
        while at < self.tokens.len() && less(self.tokens[at].as_str(), token.as_str())
            invariant
                at <= self.tokens.len(),
                *self == *old(self),
                forall|k: int| 0 <= k < at ==> precedes(self@[k], token@),
            decreases self.tokens.len() - at,
        {
            at += 1;
        }
        let ghost before = self@;
        proof {
            lemma_rank(before, token@, at as int);
            lemma_with_token(before, token@);
            lemma_precedes_irreflexive(token@);
        }
        if at < self.tokens.len() && same(self.tokens[at].as_str(), token.as_str()) {
            return;
        }
        self.tokens.insert(at, token);
        assert(self@ =~= before.insert(at as int, token@));
    }

    /// Adds the token that `raw` is when trimmed, unless that is empty or the
    /// set already has it.
    pub fn add(&mut self, raw: &str)
        requires
            old(self).well_formed(),
        ensures
            final(self).well_formed(),
            forall|t: Seq<char>|
                final(self)@.contains(t) <==> old(self)@.contains(t) || (t.len() > 0 && t
                    == trimmed(raw@)),
    {
        let token = trim(raw);
        proof {
            lemma_trimmed_edges(raw@);
            lemma_with_token(self@, token@);
        }
        if token.as_str().unicode_len() > 0 {
            self.place(token);
        }
    }

    /// Adds each of `raw` in turn.
    pub fn absorb(&mut self, raw: &Vec<String>)
        requires
            old(self).well_formed(),
        ensures
            final(self).well_formed(),
            forall|t: Seq<char>|
                final(self)@.contains(t) <==> old(self)@.contains(t) || offered(texts(raw@), t),
    {
        let mut i: usize = 0;
        while i < raw.len()
            invariant
                i <= raw.len(),
                self.well_formed(),
                forall|t: Seq<char>|
                    self@.contains(t) <==> old(self)@.contains(t) || offered(
                        texts(raw@).take(i as int),
                        t,
                    ),
            decreases raw.len() - i,
        {
            let ghost seen = texts(raw@).take(i as int);
            let ghost next = texts(raw@).take(i + 1);
            assert(next[i as int] == raw@[i as int]@);
            assert(forall|t: Seq<char>|
                offered(next, t) <==> offered(seen, t) || (t.len() > 0 && t == trimmed(
                    raw@[i as int]@,
                )));
            self.add(raw[i].as_str());
            i += 1;
        }
        assert(texts(raw@).take(i as int) =~= texts(raw@));
    }

    /// The tokens joined by commas: the form in which the set travels.
    pub fn render(&self) -> (r: String)
        ensures
            r@ == joined(self@, comma()),
    {
        proof {
            reveal_strlit(",");
            assert(","@ =~= comma());
        }
        join(&self.tokens, ",")
    }
}

/// What both sources offer is what either offers.
pub proof fn lemma_offered_of_both(a: Seq<Seq<char>>, b: Seq<Seq<char>>, token: Seq<char>)
    ensures
        offered(a + b, token) <==> offered(a, token) || offered(b, token),
{
    let both = a + b;
    if offered(a, token) {
        let k = choose|k: int| 0 <= k < a.len() && #[trigger] trimmed(a[k]) == token;
        assert(trimmed(both[k]) == token);
    }
    if offered(b, token) {
        let k = choose|k: int| 0 <= k < b.len() && #[trigger] trimmed(b[k]) == token;
        assert(trimmed(both[k + a.len()]) == token);
    }
}

/// The texts of an optional list.
pub open spec fn optional_texts(list: Option<&Vec<String>>) -> Option<Seq<Seq<char>>> {
    match list {
        Some(v) => Some(texts(v@)),
        None => None,
    }
}

/// Merges the primary tokens with the additional ones, if there are any, into
/// the resolved set: sorted, without repetition, and holding exactly the
/// non-empty trimmed tokens of the two sources.
pub fn merge(primary: &Vec<String>, additional: Option<&Vec<String>>) -> (set:
    ResolvedDependencySet)
    ensures
        set.well_formed(),
        resolves(set@, candidates(texts(primary@), optional_texts(additional))),
        set@ == resolution(candidates(texts(primary@), optional_texts(additional))),
        set@.no_duplicates(),
{
    let mut set = ResolvedDependencySet::new();
    set.absorb(primary);
    let ghost raw = candidates(texts(primary@), optional_texts(additional));
    match additional {
        Some(more) => {
            set.absorb(more);
            proof {
                assert forall|t: Seq<char>| set@.contains(t) <==> offered(raw, t) by {
                    lemma_offered_of_both(texts(primary@), texts(more@), t);
                }
            }
        },
        None => {},
    }
    proof {
        lemma_resolution(set@, raw);
        lemma_ascending_no_duplicates(set@);
    }
    set
}

} // verus!
