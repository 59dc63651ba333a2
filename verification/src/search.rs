//! The search: one pre-order pass over the tree with an explicit stack,
//! stopping at the first node that satisfies the match predicate and
//! reporting the parent declaration's byte range.

use vstd::prelude::*;
use crate::matcher::node_matches;
use crate::matcher::is_match;
use crate::tree::SyntaxTree;

verus! {

/// The outcome of one search: the byte range of the first matching
/// declaration, or `NotFound` when no node satisfies the match predicate.
#[derive(Clone, Copy, PartialEq, Eq, Structural, Debug)]
pub enum MatchResult {
    Found(usize, usize),
    NotFound,
}

/// The nodes still to visit, given the walker's stack: the walk from the
/// top entry first, then the walks from the entries below it.
pub open spec fn pending_walk(t: SyntaxTree, st: Seq<usize>) -> Seq<int>
    decreases st.len(),
{
    if st.len() == 0 {
        Seq::<int>::empty()
    } else {
        t.walk(st.last() as int) + pending_walk(t, st.drop_last())
    }
}

/// The first element of `s` that satisfies the match predicate, if any.
pub open spec fn first_match_in(t: SyntaxTree, buf: Seq<u8>, target: Seq<u8>, s: Seq<int>) -> Option<
    int,
>
    decreases s.len(),
{
    if s.len() == 0 {
        None
    } else if node_matches(t, buf, target, s[0]) {
        Some(s[0])
    } else {
        first_match_in(t, buf, target, s.subrange(1, s.len() as int))
    }
}

/// The answer derived from a matching node: its parent declaration's own
/// span, exactly as the tree reports it, never adjusted.
pub open spec fn found_range(t: SyntaxTree, i: int) -> MatchResult {
    match t.nodes@[i].parent {
        Some(p) => MatchResult::Found(t.nodes@[p as int].start, t.nodes@[p as int].end),
        None => MatchResult::NotFound,
    }
}

/// What one invocation of the search returns: the parent span of the first
/// pre-order match, or `NotFound` when no node matches.
pub open spec fn search_spec(t: SyntaxTree, buf: Seq<u8>, target: Seq<u8>) -> MatchResult {
    match first_match_in(t, buf, target, t.preorder()) {
        Some(i) => found_range(t, i),
        None => MatchResult::NotFound,
    }
}

/// Pushing an entry prepends its walk to the pending sequence.
pub proof fn lemma_pending_push(t: SyntaxTree, st: Seq<usize>, x: usize)
    ensures
        pending_walk(t, st.push(x)) == t.walk(x as int) + pending_walk(t, st),
{
    assert(st.push(x).len() != 0);
    assert(st.push(x).last() == x);
    assert(st.push(x).drop_last() =~= st);
}

/// One step of `first_match_in` over a sequence split as head plus rest.
pub proof fn lemma_first_match_step(
    t: SyntaxTree,
    buf: Seq<u8>,
    target: Seq<u8>,
    x: int,
    rest: Seq<int>,
)
    ensures
        node_matches(t, buf, target, x) ==> first_match_in(t, buf, target, seq![x] + rest)
            == Some(x),
        !node_matches(t, buf, target, x) ==> first_match_in(t, buf, target, seq![x] + rest)
            == first_match_in(t, buf, target, rest),
{
    let s = seq![x] + rest;
    assert(s[0] == x);
    assert(s.subrange(1, s.len() as int) =~= rest);
}

/// Walks the tree once in pre-order (node before children, children before
/// later siblings, left to right) with an explicit stack, and returns the
/// parent declaration's byte range of the first node matching `target`, or
/// `NotFound` if the walk exhausts the tree without a match. Iterative, so
/// the traversal does not lean on call-stack depth.
pub fn find_declaration(t: &SyntaxTree, buf: &[u8], target: &[u8]) -> (r: MatchResult)
    requires
        t.wf(),
        t.in_buffer(buf@.len()),
    ensures
        r == search_spec(*t, buf@, target@),
        r matches MatchResult::Found(s, e) ==> s <= e <= buf@.len(),
{
    let ident_tag: String = "identifier".to_owned();
    let decl_tag: String = "method_declaration".to_owned();
    let mut stack: Vec<usize> = Vec::new();
    if t.nodes.len() > 0 {
        let ghost empty_stack = stack@;
        stack.push(0);
        proof {
            lemma_pending_push(*t, empty_stack, 0);
            assert(pending_walk(*t, empty_stack) == Seq::<int>::empty());
            assert(pending_walk(*t, stack@) =~= t.preorder());
        }
    }
    while stack.len() > 0
        invariant
            t.wf(),
            t.in_buffer(buf@.len()),
            ident_tag@ == "identifier"@,
            decl_tag@ == "method_declaration"@,
            forall|k: int| 0 <= k < stack@.len() ==> #[trigger] stack@[k] < t.nodes@.len(),
            first_match_in(*t, buf@, target@, t.preorder()) == first_match_in(
                *t,
                buf@,
                target@,
                pending_walk(*t, stack@),
            ),
        decreases pending_walk(*t, stack@).len(),
    {
        let ghost st_before = stack@;
        let i: usize = stack.pop().unwrap();
        assert(i == st_before.last() && stack@ == st_before.drop_last());
        assert(i < t.nodes@.len());
        assert(t.node_wf(i as int));
        let ghost through_child = match t.nodes@[i as int].first_child {
            Some(c) => t.walk(c as int),
            None => Seq::<int>::empty(),
        };
        let ghost through_sibling = match t.nodes@[i as int].next_sibling {
            Some(s) => t.walk(s as int),
            None => Seq::<int>::empty(),
        };
        let ghost rest_pending = pending_walk(*t, stack@);
        let ghost after_i = through_child + through_sibling + rest_pending;
        proof {
            assert(pending_walk(*t, st_before) == t.walk(i as int) + rest_pending);
            assert(t.walk(i as int) == seq![i as int] + through_child + through_sibling);
            assert(pending_walk(*t, st_before) =~= seq![i as int] + after_i);
            lemma_first_match_step(*t, buf@, target@, i as int, after_i);
        }
        if is_match(t, buf, target, i, &ident_tag, &decl_tag) {
            let node = &t.nodes[i];
            match node.parent {
                Some(p) => {
                    assert(t.node_wf(p as int));
                    let parent_node = &t.nodes[p];
                    return MatchResult::Found(parent_node.start, parent_node.end);
                },
                None => {
                    assert(false);
                    return MatchResult::NotFound;
                },
            }
        }
        let ghost rest_view = stack@;
        let node = &t.nodes[i];
        match node.next_sibling {
            Some(s) => {
                stack.push(s);
            },
            None => {},
        }
        match node.first_child {
            Some(c) => {
                stack.push(c);
            },
            None => {},
        }
        proof {
            match t.nodes@[i as int].next_sibling {
                Some(s) => {
                    lemma_pending_push(*t, rest_view, s);
                    match t.nodes@[i as int].first_child {
                        Some(c) => {
                            lemma_pending_push(*t, rest_view.push(s), c);
                            assert(stack@ == rest_view.push(s).push(c));
                        },
                        None => {
                            assert(stack@ == rest_view.push(s));
                        },
                    }
                },
                None => {
                    match t.nodes@[i as int].first_child {
                        Some(c) => {
                            lemma_pending_push(*t, rest_view, c);
                            assert(stack@ == rest_view.push(c));
                        },
                        None => {
                            assert(stack@ == rest_view);
                        },
                    }
                },
            }
            assert(pending_walk(*t, stack@) =~= after_i);
        }
    }
    proof {
        assert(pending_walk(*t, stack@) =~= Seq::<int>::empty());
    }
    MatchResult::NotFound
}

/// Runs the search and slices the buffer at the reported range: the
/// declaration's text verbatim, never adjusted, or `None` when no node
/// matches.
pub fn extract_declaration(t: &SyntaxTree, buf: &[u8], target: &[u8]) -> (r: Option<Vec<u8>>)
    requires
        t.wf(),
        t.in_buffer(buf@.len()),
    ensures
        match search_spec(*t, buf@, target@) {
            MatchResult::Found(s, e) => r matches Some(text) && text@ == buf@.subrange(
                s as int,
                e as int,
            ),
            MatchResult::NotFound => r is None,
        },
{
    match find_declaration(t, buf, target) {
        MatchResult::Found(s, e) => {
            let text = vstd::slice::slice_to_vec(vstd::slice::slice_subrange(buf, s, e));
            Some(text)
        },
        MatchResult::NotFound => None,
    }
}

} // verus!
