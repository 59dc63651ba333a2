//! The library's stated laws: facts about the search result that hold of
//! every tree, buffer and target, proved against the specs that the
//! executable functions' contracts use.

use vstd::prelude::*;
use crate::matcher::names_method_declaration;
use crate::matcher::is_identifier_node;
use crate::matcher::node_matches;
use crate::search::MatchResult;
use crate::search::first_match_in;
use crate::search::found_range;
use crate::search::search_spec;
use crate::tree::SyntaxTree;

verus! {

/// `i` stands at position `k` of `s`, satisfies the match predicate, and no
/// earlier position does.
pub open spec fn match_position(
    t: SyntaxTree,
    buf: Seq<u8>,
    target: Seq<u8>,
    s: Seq<int>,
    k: int,
    i: int,
) -> bool {
    &&& 0 <= k < s.len()
    &&& s[k] == i
    &&& node_matches(t, buf, target, i)
    &&& forall|j: int| 0 <= j < k ==> !node_matches(t, buf, target, s[j])
}

/// When no element of `s` satisfies the match predicate, there is no first
/// match in `s`.
pub proof fn lemma_no_match_in(t: SyntaxTree, buf: Seq<u8>, target: Seq<u8>, s: Seq<int>)
    requires
        forall|k: int| 0 <= k < s.len() ==> !node_matches(t, buf, target, #[trigger] s[k]),
    ensures
        first_match_in(t, buf, target, s) is None,
    decreases s.len(),
{
    if s.len() > 0 {
        let sub = s.subrange(1, s.len() as int);
        assert(forall|k: int|
            0 <= k < sub.len() ==> !node_matches(t, buf, target, #[trigger] sub[k]));
        lemma_no_match_in(t, buf, target, sub);
    }
}

/// When position `k` of `s` satisfies the match predicate and no earlier
/// position does, the first match in `s` is exactly `s[k]`.
pub proof fn lemma_match_at(t: SyntaxTree, buf: Seq<u8>, target: Seq<u8>, s: Seq<int>, k: int)
    requires
        0 <= k < s.len(),
        node_matches(t, buf, target, s[k]),
        forall|j: int| 0 <= j < k ==> !node_matches(t, buf, target, #[trigger] s[j]),
    ensures
        first_match_in(t, buf, target, s) == Some(s[k]),
    decreases k,
{
    if k > 0 {
        let sub = s.subrange(1, s.len() as int);
        assert(!node_matches(t, buf, target, s[0]));
        assert(sub[k - 1] == s[k]);
        assert(forall|j: int| 0 <= j < k - 1 ==> !node_matches(t, buf, target, #[trigger] sub[j]));
        lemma_match_at(t, buf, target, sub, k - 1);
    }
}

/// A first match in `s` is an element of `s` that satisfies the match
/// predicate, with no earlier element satisfying it.
pub proof fn lemma_first_match_position(
    t: SyntaxTree,
    buf: Seq<u8>,
    target: Seq<u8>,
    s: Seq<int>,
    i: int,
)
    requires
        first_match_in(t, buf, target, s) == Some(i),
    ensures
        exists|k: int| match_position(t, buf, target, s, k, i),
    decreases s.len(),
{
    if node_matches(t, buf, target, s[0]) {
        assert(match_position(t, buf, target, s, 0, i));
    } else {
        let sub = s.subrange(1, s.len() as int);
        lemma_first_match_position(t, buf, target, sub, i);
        let k0 = choose|k: int| match_position(t, buf, target, sub, k, i);
        assert(s[k0 + 1] == sub[k0]);
        assert(forall|j: int|
            0 <= j < k0 + 1 ==> !node_matches(t, buf, target, #[trigger] s[j])) by {
            assert(forall|j: int|
                1 <= j < k0 + 1 ==> s[j] == sub[j - 1] && !node_matches(
                    t,
                    buf,
                    target,
                    #[trigger] s[j],
                ));
        }
        assert(match_position(t, buf, target, s, k0 + 1, i));
    }
}

/// First-match determinism: when the node at pre-order position `k` matches
/// and no earlier position does, the search answers with exactly that
/// node's parent declaration span, on every run.
pub proof fn lemma_first_match_wins(t: SyntaxTree, buf: Seq<u8>, target: Seq<u8>, k: int)
    requires
        0 <= k < t.preorder().len(),
        node_matches(t, buf, target, t.preorder()[k]),
        forall|j: int| 0 <= j < k ==> !node_matches(t, buf, target, #[trigger] t.preorder()[j]),
    ensures
        search_spec(t, buf, target) == found_range(t, t.preorder()[k]),
{
    lemma_match_at(t, buf, target, t.preorder(), k);
}

/// Scope discrimination: a node that is not an identifier naming a method
/// declaration — a parameter, a local variable, a call-site reference —
/// never satisfies the match predicate, whatever its text.
pub proof fn lemma_scope_discrimination(
    t: SyntaxTree,
    buf: Seq<u8>,
    target: Seq<u8>,
    i: int,
)
    requires
        !is_identifier_node(t, i) || !names_method_declaration(t, i),
    ensures
        !node_matches(t, buf, target, i),
{
}

/// Exhaustiveness: when no node of the pre-order sequence satisfies the
/// match predicate, the search answers `NotFound`, never a spurious range.
pub proof fn lemma_exhaustive(t: SyntaxTree, buf: Seq<u8>, target: Seq<u8>)
    requires
        forall|k: int|
            0 <= k < t.preorder().len() ==> !node_matches(
                t,
                buf,
                target,
                #[trigger] t.preorder()[k],
            ),
    ensures
        search_spec(t, buf, target) == MatchResult::NotFound,
{
    lemma_no_match_in(t, buf, target, t.preorder());
}

/// Exact slice: a `Found` answer carries exactly the span of the parent
/// declaration of some matched node, first in pre-order, and that span lies
/// inside the buffer; slicing the buffer there reproduces the declaration
/// byte-for-byte as the tree delimits it.
pub proof fn lemma_found_is_declaration_span(t: SyntaxTree, buf: Seq<u8>, target: Seq<u8>)
    requires
        t.wf(),
        t.in_buffer(buf.len()),
    ensures
        search_spec(t, buf, target) matches MatchResult::Found(s, e) ==> s <= e <= buf.len()
            && exists|k: int|
            match_position(t, buf, target, t.preorder(), k, #[trigger] t.preorder()[k])
                && found_range(t, t.preorder()[k]) == MatchResult::Found(s, e),
{
    if search_spec(t, buf, target) matches MatchResult::Found(s, e) {
        let i = first_match_in(t, buf, target, t.preorder())->Some_0;
        lemma_first_match_position(t, buf, target, t.preorder(), i);
        let k = choose|k: int| match_position(t, buf, target, t.preorder(), k, i);
        assert(t.preorder()[k] == i);
        if t.nodes@.len() > 0 {
            t.lemma_walk_in_range(0);
        }
        assert(0 <= i < t.nodes@.len());
        let p = t.nodes@[i].parent->Some_0;
        assert(t.node_wf(i));
        assert(t.node_wf(p as int));
        assert(t.nodes@[p as int].end <= buf.len());
        assert(match_position(t, buf, target, t.preorder(), k, t.preorder()[k]));
    }
}

/// Idempotence: the search result is a function of the tree, the buffer and
/// the target alone, so two runs over the same unchanged inputs return
/// identical results.
pub proof fn lemma_idempotent(
    t: SyntaxTree,
    buf: Seq<u8>,
    target: Seq<u8>,
    r1: MatchResult,
    r2: MatchResult,
)
    requires
        r1 == search_spec(t, buf, target),
        r2 == search_spec(t, buf, target),
    ensures
        r1 == r2,
{
}

} // verus!
