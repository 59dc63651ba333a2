//! The match predicate: a node identifies the target declaration iff it is
//! an identifier node, its own text in the source buffer equals the target
//! byte-for-byte, and its immediate parent is a method declaration.

use vstd::prelude::*;
use vstd::slice::slice_index_get;
use crate::tree::SyntaxTree;

verus! {

/// The node at `i` carries the identifier kind tag.
pub open spec fn is_identifier_node(t: SyntaxTree, i: int) -> bool {
    t.nodes@[i].kind@ == "identifier"@
}

/// The node at `i` has a parent, and that parent carries the method
/// declaration kind tag.
pub open spec fn names_method_declaration(t: SyntaxTree, i: int) -> bool {
    match t.nodes@[i].parent {
        Some(p) => t.nodes@[p as int].kind@ == "method_declaration"@,
        None => false,
    }
}

/// The exact text of the node at `i`: the buffer bytes at its own range.
pub open spec fn node_text(t: SyntaxTree, buf: Seq<u8>, i: int) -> Seq<u8> {
    buf.subrange(t.nodes@[i].start as int, t.nodes@[i].end as int)
}

/// The match predicate. Case-sensitive, byte-exact, no normalization; an
/// identifier with the right text that is not the name of a method
/// declaration (a parameter, a local variable, a call site) does not match.
pub open spec fn node_matches(t: SyntaxTree, buf: Seq<u8>, target: Seq<u8>, i: int) -> bool {
    &&& is_identifier_node(t, i)
    &&& node_text(t, buf, i) == target
    &&& names_method_declaration(t, i)
}

/// Byte-for-byte equality of `buf[start..end]` with `target`.
pub fn range_text_equals(buf: &[u8], start: usize, end: usize, target: &[u8]) -> (r: bool)
    requires
        start <= end <= buf@.len(),
    ensures
        r == (buf@.subrange(start as int, end as int) == target@),
{
    if end - start != target.len() {
        assert(buf@.subrange(start as int, end as int).len() != target@.len());
        return false;
    }
    let n = target.len();
    let mut j: usize = 0;
    while j < n
        invariant
            start <= end <= buf@.len(),
            n == target@.len(),
            end - start == n,
            0 <= j <= n,
            forall|k: int| 0 <= k < j ==> buf@[start + k] == target@[k],
        decreases n - j,
    {
        let a = *slice_index_get(buf, start + j);
        let b = *slice_index_get(target, j);
        if a != b {
            assert(buf@.subrange(start as int, end as int)[j as int] != target@[j as int]);
            return false;
        }
        j = j + 1;
    }
    assert(buf@.subrange(start as int, end as int) =~= target@);
    true
}

/// Decides `node_matches` for the node at `i`. The two tag strings are the
/// kind tags the predicate compares against, passed in so the caller builds
/// them once per search.
pub fn is_match(
    t: &SyntaxTree,
    buf: &[u8],
    target: &[u8],
    i: usize,
    ident_tag: &String,
    decl_tag: &String,
) -> (r: bool)
    requires
        t.wf(),
        t.in_buffer(buf@.len()),
        i < t.nodes@.len(),
        ident_tag@ == "identifier"@,
        decl_tag@ == "method_declaration"@,
    ensures
        r == node_matches(*t, buf@, target@, i as int),
{
    assert(t.node_wf(i as int));
    let node = &t.nodes[i];
    if !(node.kind == *ident_tag) {
        return false;
    }
    if !range_text_equals(buf, node.start, node.end, target) {
        return false;
    }
    match node.parent {
        Some(p) => {
            let parent_node = &t.nodes[p];
            parent_node.kind == *decl_tag
        },
        None => false,
    }
}

} // verus!
