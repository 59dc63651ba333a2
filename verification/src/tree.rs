//! The syntax tree model: nodes with kind tags, byte ranges and structural
//! links, together with well-formedness and the pre-order visit sequence.

use vstd::prelude::*;

verus! {

/// One node of a concrete syntax tree.
///
/// `kind` is the grammatical tag of the node (for example `identifier` or
/// `method_declaration`). `start` and `end` are byte offsets into the source
/// buffer the tree was parsed from, with `start <= end`. The links are
/// indices into the owning tree's node table: `parent` the enclosing node,
/// `first_child` the leftmost child, `next_sibling` the next node to the
/// right under the same parent.
pub struct SyntaxNode {
    pub kind: String,
    pub start: usize,
    pub end: usize,
    pub parent: Option<usize>,
    pub first_child: Option<usize>,
    pub next_sibling: Option<usize>,
}

/// A whole tree: its nodes in pre-order, the root at index 0.
pub struct SyntaxTree {
    pub nodes: Vec<SyntaxNode>,
}

impl SyntaxTree {
    /// Structural well-formedness: every byte range is ordered, every parent
    /// link is in range, and every child or sibling link points strictly
    /// forward in the node table. Forward links are what pre-order numbering
    /// gives, and they bound the walk.
    pub open spec fn wf(self) -> bool {
        forall|i: int| 0 <= i < self.nodes@.len() ==> #[trigger] self.node_wf(i)
    }

    /// Well-formedness of the node at index `i`.
    pub open spec fn node_wf(self, i: int) -> bool
        recommends
            0 <= i < self.nodes@.len(),
    {
        let n = self.nodes@[i];
        &&& n.start <= n.end
        &&& (n.parent matches Some(p) ==> p < self.nodes@.len())
        &&& (n.first_child matches Some(c) ==> i < c < self.nodes@.len())
        &&& (n.next_sibling matches Some(s) ==> i < s < self.nodes@.len())
    }

    /// Every node's byte range lies inside a buffer of `len` bytes.
    pub open spec fn in_buffer(self, len: nat) -> bool {
        forall|i: int|
            0 <= i < self.nodes@.len() ==> #[trigger] self.nodes@[i].end <= len
    }

    /// The pre-order visit sequence starting at node `i`: the node itself,
    /// then its subtree through `first_child`, then its right siblings'
    /// subtrees through `next_sibling`.
    pub open spec fn walk(self, i: int) -> Seq<int>
        decreases self.nodes@.len() - i,
            when self.wf() && 0 <= i < self.nodes@.len()
    {
        if self.node_wf(i) {
            let through_child = match self.nodes@[i].first_child {
                Some(c) => self.walk(c as int),
                None => Seq::<int>::empty(),
            };
            let through_sibling = match self.nodes@[i].next_sibling {
                Some(s) => self.walk(s as int),
                None => Seq::<int>::empty(),
            };
            seq![i] + through_child + through_sibling
        } else {
            seq![i]
        }
    }

    /// The pre-order visit sequence of the whole tree.
    pub open spec fn preorder(self) -> Seq<int> {
        if self.nodes@.len() == 0 {
            Seq::<int>::empty()
        } else {
            self.walk(0)
        }
    }

    /// Every index the walk visits is a valid node index.
    pub proof fn lemma_walk_in_range(self, i: int)
        requires
            self.wf(),
            0 <= i < self.nodes@.len(),
        ensures
            forall|k: int|
                0 <= k < self.walk(i).len() ==> 0 <= #[trigger] self.walk(i)[k]
                    < self.nodes@.len(),
        decreases self.nodes@.len() - i,
    {
        assert(self.node_wf(i));
        match self.nodes@[i].first_child {
            Some(c) => self.lemma_walk_in_range(c as int),
            None => {},
        }
        match self.nodes@[i].next_sibling {
            Some(s) => self.lemma_walk_in_range(s as int),
            None => {},
        }
        let through_child = match self.nodes@[i].first_child {
            Some(c) => self.walk(c as int),
            None => Seq::<int>::empty(),
        };
        let through_sibling = match self.nodes@[i].next_sibling {
            Some(s) => self.walk(s as int),
            None => Seq::<int>::empty(),
        };
        assert(self.walk(i) == seq![i] + through_child + through_sibling);
        assert forall|k: int| 0 <= k < self.walk(i).len() implies 0 <= #[trigger] self.walk(
            i,
        )[k] < self.nodes@.len() by {
            if k == 0 {
                assert(self.walk(i)[k] == i);
            } else if k < 1 + through_child.len() {
                assert(self.walk(i)[k] == through_child[k - 1]);
            } else {
                assert(self.walk(i)[k] == through_sibling[k - 1 - through_child.len()]);
            }
        }
    }

    /// Runtime check of `wf`: the defensive validation a caller runs before
    /// trusting a tree handed in from outside.
    pub fn check_wf(&self) -> (r: bool)
        ensures
            r == self.wf(),
    {
        let n = self.nodes.len();
        let mut i: usize = 0;
        while i < n
            invariant
                n == self.nodes@.len(),
                0 <= i <= n,
                forall|j: int| 0 <= j < i ==> #[trigger] self.node_wf(j),
            decreases n - i,
        {
            let node = &self.nodes[i];
            if node.start > node.end {
                assert(!self.node_wf(i as int));
                return false;
            }
            match node.parent {
                Some(p) => {
                    if p >= n {
                        assert(!self.node_wf(i as int));
                        return false;
                    }
                },
                None => {},
            }
            match node.first_child {
                Some(c) => {
                    if c <= i || c >= n {
                        assert(!self.node_wf(i as int));
                        return false;
                    }
                },
                None => {},
            }
            match node.next_sibling {
                Some(s) => {
                    if s <= i || s >= n {
                        assert(!self.node_wf(i as int));
                        return false;
                    }
                },
                None => {},
            }
            assert(self.node_wf(i as int));
            i = i + 1;
        }
        true
    }

    /// Runtime check of `in_buffer` for a buffer of `len` bytes.
    pub fn check_in_buffer(&self, len: usize) -> (r: bool)
        ensures
            r == self.in_buffer(len as nat),
    {
        let n = self.nodes.len();
        let mut i: usize = 0;
        while i < n
            invariant
                n == self.nodes@.len(),
                0 <= i <= n,
                forall|j: int| 0 <= j < i ==> #[trigger] self.nodes@[j].end <= len,
            decreases n - i,
        {
            if self.nodes[i].end > len {
                return false;
            }
            i = i + 1;
        }
        true
    }
}

} // verus!
