use vstd::prelude::*;

use crate::tree::{NodeKind, SyntaxTree};

verus! {

/// Node `i` is an identifier that starts exactly at (`line`, `column`) and
/// does not end before `column`.
pub open spec fn is_match(t: SyntaxTree, i: usize, line: usize, column: usize) -> bool {
    &&& t.node(i as int).kind == NodeKind::Identifier
    &&& t.node(i as int).start.row == line
    &&& t.node(i as int).start.column == column
    &&& t.node(i as int).end.column >= column
}

/// A search without a column (`column` 0, a reported column of 1) stops at
/// any identifier that starts on the target line.
pub open spec fn is_cut(t: SyntaxTree, i: usize, line: usize, column: usize) -> bool {
    &&& column == 0
    &&& t.node(i as int).kind == NodeKind::Identifier
    &&& t.node(i as int).start.row == line
}

/// Pre-order search from node `i`: the node itself, then its children, or,
/// for a leaf, its following siblings.
pub open spec fn find_from(t: SyntaxTree, i: usize, line: usize, column: usize) -> Option<usize>
    decreases t.len() - i, t.children(i as int).len() + 1,
{
    if i >= t.len() {
        None
    } else if is_cut(t, i, line, column) {
        None
    } else if is_match(t, i, line, column) {
        Some(i)
    } else if t.children(i as int).len() > 0 {
        find_among(t, i, 0, line, column)
    } else {
        match t.next_sibling(i as int) {
            Some(s) => if i < s < t.len() {
                find_from(t, s, line, column)
            } else {
                None
            },
            None => None,
        }
    }
}

/// The first result of the search from the children of `i`, from the `k`-th on.
pub open spec fn find_among(t: SyntaxTree, i: usize, k: int, line: usize, column: usize) -> Option<
    usize,
>
    decreases t.len() - i, t.children(i as int).len() - k,
{
    if i >= t.len() || k < 0 || k >= t.children(i as int).len() {
        None
    } else {
        let c = t.children(i as int)[k];
        let r = if i < c < t.len() {
            find_from(t, c, line, column)
        } else {
            None
        };
        if r is Some {
            r
        } else {
            find_among(t, i, k + 1, line, column)
        }
    }
}

/// The located node: the search runs over the root's children in order.
pub open spec fn locate(t: SyntaxTree, line: usize, column: usize) -> Option<usize> {
    find_among(t, 0, 0, line, column)
}

impl SyntaxTree {
    #[verifier::rlimit(50)]
    fn find_from_node(&self, i: usize, line: usize, column: usize) -> (r: Option<usize>)
        requires
            self.wf(),
            i < self.len(),
        ensures
            r == find_from(*self, i, line, column),
        decreases self.len() - i, self.children(i as int).len() + 1,
    {
        let node = &self.nodes[i];
        if column == 0 && node.kind == NodeKind::Identifier && node.start.row == line {
            return None;
        }
        if node.kind == NodeKind::Identifier && node.start.row == line && node.start.column
            == column && node.end.column >= column {
            return Some(i);
        }
        if node.children.len() > 0 {
            return self.find_among_children(i, line, column);
        }
        match node.parent {
            Some(p) => {
                assert(self.node(i as int).parent is Some);
                let siblings = &self.nodes[p].children;
                if node.index_in_parent < siblings.len() - 1 {
                    let s = siblings[node.index_in_parent + 1];
                    assert(self.children(p as int)[node.index_in_parent as int + 1] == s);
                    self.find_from_node(s, line, column)
                } else {
                    None
                }
            },
            None => None,
        }
    }

    fn find_among_children(&self, i: usize, line: usize, column: usize) -> (r: Option<usize>)
        requires
            self.wf(),
            i < self.len(),
        ensures
            r == find_among(*self, i, 0, line, column),
        decreases self.len() - i, 0int,
    {
        let children = &self.nodes[i].children;
        let mut k: usize = 0;
        while k < children.len()
            invariant
                self.wf(),
                i < self.len(),
                children@ == self.children(i as int),
                k <= children@.len(),
                find_among(*self, i, 0, line, column) == find_among(
                    *self,
                    i,
                    k as int,
                    line,
                    column,
                ),
            decreases children@.len() - k,
        {
            let c = children[k];
            let r = self.find_from_node(c, line, column);
            if r.is_some() {
                return r;
            }
            k = k + 1;
        }
        None
    }

    /// The identifier node that (`line`, `column`), both zero-based, points at.
    pub fn find_node_by_line_and_offset(&self, line: usize, column: usize) -> (r: Option<usize>)
        requires
            self.wf(),
        ensures
            r == locate(*self, line, column),
    {
        self.find_among_children(0, line, column)
    }
}

/// Whatever the search finds is a matching node at which it was not cut.
pub proof fn lemma_find_from_sound(t: SyntaxTree, i: usize, line: usize, column: usize)
    ensures
        find_from(t, i, line, column) matches Some(n) ==> {
            &&& n < t.len()
            &&& is_match(t, n, line, column)
            &&& !is_cut(t, n, line, column)
        },
    decreases t.len() - i, t.children(i as int).len() + 1,
{
    if i < t.len() && !is_cut(t, i, line, column) && !is_match(t, i, line, column) {
        if t.children(i as int).len() > 0 {
            lemma_find_among_sound(t, i, 0, line, column);
        } else if let Some(s) = t.next_sibling(i as int) {
            if i < s < t.len() {
                lemma_find_from_sound(t, s, line, column);
            }
        }
    }
}

/// Whatever the search among children finds is a matching node.
pub proof fn lemma_find_among_sound(t: SyntaxTree, i: usize, k: int, line: usize, column: usize)
    ensures
        find_among(t, i, k, line, column) matches Some(n) ==> {
            &&& n < t.len()
            &&& is_match(t, n, line, column)
            &&& !is_cut(t, n, line, column)
        },
    decreases t.len() - i, t.children(i as int).len() - k,
{
    if i < t.len() && 0 <= k < t.children(i as int).len() {
        let c = t.children(i as int)[k];
        if i < c < t.len() {
            lemma_find_from_sound(t, c, line, column);
        }
        lemma_find_among_sound(t, i, k + 1, line, column);
    }
}

/// A descendant of `i` is `i`'s child or lies below one of its children.
proof fn lemma_ancestor_child(t: SyntaxTree, i: int, n: int) -> (j: int)
    requires
        t.wf(),
        t.is_ancestor(i, n),
    ensures
        0 <= i < t.len(),
        0 <= j < t.children(i).len(),
        t.children(i)[j] == n || t.is_ancestor(t.children(i)[j] as int, n),
    decreases n,
{
    let p = t.node(n).parent->Some_0;
    if p == i {
        t.node(n).index_in_parent as int
    } else {
        let j = lemma_ancestor_child(t, i, p as int);
        j
    }
}

/// The root is an ancestor of every other node.
proof fn lemma_root_is_ancestor(t: SyntaxTree, n: int)
    requires
        t.wf(),
        0 < n < t.len(),
    ensures
        t.is_ancestor(0, n),
    decreases n,
{
    let p = t.node(n).parent->Some_0;
    if p != 0 {
        lemma_root_is_ancestor(t, p as int);
    }
}

proof fn lemma_find_from_complete(t: SyntaxTree, i: usize, n: usize, line: usize, column: usize)
    requires
        t.wf(),
        i < t.len(),
        n < t.len(),
        i == n || t.is_ancestor(i as int, n as int),
        column != 0,
        is_match(t, n, line, column),
        forall|m: usize| m < t.len() && m != n ==> !is_match(t, m, line, column),
    ensures
        find_from(t, i, line, column) == Some(n),
    decreases t.len() - i, t.children(i as int).len() + 1,
{
    if i != n {
        let j = lemma_ancestor_child(t, i as int, n as int);
        lemma_find_among_complete(t, i, 0, j, n, line, column);
    }
}

proof fn lemma_find_among_complete(
    t: SyntaxTree,
    i: usize,
    k: int,
    j: int,
    n: usize,
    line: usize,
    column: usize,
)
    requires
        t.wf(),
        i < t.len(),
        n < t.len(),
        0 <= k <= j < t.children(i as int).len(),
        t.children(i as int)[j] == n || t.is_ancestor(t.children(i as int)[j] as int, n as int),
        column != 0,
        is_match(t, n, line, column),
        forall|m: usize| m < t.len() && m != n ==> !is_match(t, m, line, column),
    ensures
        find_among(t, i, k, line, column) == Some(n),
    decreases t.len() - i, t.children(i as int).len() - k,
{
    let c = t.children(i as int)[k];
    lemma_find_from_sound(t, c, line, column);
    if k == j {
        lemma_find_from_complete(t, c, n, line, column);
    } else if find_from(t, c, line, column) is None {
        lemma_find_among_complete(t, i, k + 1, j, n, line, column);
    }
}

/// A search without a column (a reported column of 1, zero-based column 0)
/// never resolves to a node, whatever the tree.
pub proof fn lemma_no_column_locates_nothing(t: SyntaxTree, line: usize)
    ensures
        locate(t, line, 0) is None,
{
    lemma_find_among_sound(t, 0, 0, line, 0);
}

/// Where exactly one node is an identifier starting at (`line`, `column`),
/// with `column` not 0 and the node not the root, the search returns it.
pub proof fn lemma_locate_finds_unique_match(t: SyntaxTree, n: usize, line: usize, column: usize)
    requires
        t.wf(),
        0 < n < t.len(),
        column != 0,
        is_match(t, n, line, column),
        forall|m: usize| m < t.len() && m != n ==> !is_match(t, m, line, column),
    ensures
        locate(t, line, column) == Some(n),
{
    lemma_root_is_ancestor(t, n as int);
    let j = lemma_ancestor_child(t, 0, n as int);
    lemma_find_among_complete(t, 0, 0, j, n, line, column);
}

} // verus!
