use vstd::prelude::*;

verus! {

/// What a syntax node stands for, as far as locating and scoping need to know.
#[derive(Clone, Copy, Debug, PartialEq, Eq, Structural)]
pub enum NodeKind {
    Identifier,
    FunctionDefinition,
    Other,
}

/// A zero-based (row, column) position in a source text.
#[derive(Clone, Copy, Debug, PartialEq, Eq, Structural)]
pub struct Point {
    pub row: usize,
    pub column: usize,
}

/// One node of a concrete syntax tree, held in a `SyntaxTree` arena.
pub struct SyntaxNode {
    pub kind: NodeKind,
    pub start: Point,
    pub end: Point,
    pub parent: Option<usize>,
    /// Position of this node in its parent's `children`.
    pub index_in_parent: usize,
    /// Indices of the children, in source order.
    pub children: Vec<usize>,
}

/// A concrete syntax tree whose node 0 is the root.
pub struct SyntaxTree {
    pub nodes: Vec<SyntaxNode>,
}

impl SyntaxTree {
    pub open spec fn len(&self) -> int {
        self.nodes@.len() as int
    }

    pub open spec fn node(&self, i: int) -> SyntaxNode {
        self.nodes@[i]
    }

    pub open spec fn children(&self, i: int) -> Seq<usize> {
        self.nodes@[i].children@
    }

    /// Parent links and child lists agree, children come after their parent
    /// and in increasing order, and every node but the root has a parent.
    pub open spec fn wf(&self) -> bool {
        &&& self.len() > 0
        &&& self.node(0).parent is None
        &&& forall|i: int|
            0 < i < self.len() ==> {
                &&& (#[trigger] self.node(i)).parent matches Some(p)
                &&& p < i
                &&& self.node(i).index_in_parent < self.children(p as int).len()
                &&& self.children(p as int)[self.node(i).index_in_parent as int] == i
            }
        &&& forall|i: int, k: int|
            0 <= i < self.len() && 0 <= k < self.children(i).len() ==> {
                &&& i < #[trigger] self.children(i)[k] < self.len()
                &&& self.node(self.children(i)[k] as int).parent == Some(i as usize)
                &&& self.node(self.children(i)[k] as int).index_in_parent == k
            }
        &&& forall|i: int, k: int|
            0 <= i < self.len() && 0 < k < self.children(i).len() ==> self.children(i)[k - 1]
                < #[trigger] self.children(i)[k]
    }

    /// A position on a row of the text has its column within that row.
    pub open spec fn point_fits(p: Point, lines: Seq<Seq<char>>) -> bool {
        p.row < lines.len() ==> p.column <= lines[p.row as int].len()
    }

    /// Every node's start and end lie within the lines `lines`.
    pub open spec fn fits(&self, lines: Seq<Seq<char>>) -> bool {
        forall|i: int|
            0 <= i < self.len() ==> Self::point_fits((#[trigger] self.node(i)).start, lines)
                && Self::point_fits(self.node(i).end, lines)
    }

    /// The sibling that follows node `i` in its parent's children, if any.
    pub open spec fn next_sibling(&self, i: int) -> Option<usize> {
        match self.node(i).parent {
            Some(p) => {
                let k = self.node(i).index_in_parent + 1;
                if k < self.children(p as int).len() {
                    Some(self.children(p as int)[k as int])
                } else {
                    None
                }
            },
            None => None,
        }
    }

    /// `a` is a proper ancestor of `n`.
    pub open spec fn is_ancestor(&self, a: int, n: int) -> bool
        decreases n,
    {
        if 0 <= n < self.len() {
            match self.node(n).parent {
                Some(p) => p == a || (p < n && self.is_ancestor(a, p as int)),
                None => false,
            }
        } else {
            false
        }
    }

    /// A tree of one root node.
    pub fn with_root(kind: NodeKind, start: Point, end: Point) -> (r: SyntaxTree)
        ensures
            r.wf(),
            r.len() == 1,
            r.node(0).kind == kind,
            r.node(0).start == start,
            r.node(0).end == end,
            r.children(0).len() == 0,
    {
        let root = SyntaxNode {
            kind,
            start,
            end,
            parent: None,
            index_in_parent: 0,
            children: Vec::new(),
        };
        let mut nodes: Vec<SyntaxNode> = Vec::new();
        nodes.push(root);
        SyntaxTree { nodes }
    }

    /// Appends a new last child to node `parent` and returns its index.
    pub fn add_child(&mut self, parent: usize, kind: NodeKind, start: Point, end: Point) -> (r:
        usize)
        requires
            old(self).wf(),
            parent < old(self).len(),
            old(self).len() < usize::MAX,
        ensures
            final(self).wf(),
            r == old(self).len(),
            final(self).len() == old(self).len() + 1,
            final(self).node(r as int).kind == kind,
            final(self).node(r as int).start == start,
            final(self).node(r as int).end == end,
            final(self).node(r as int).parent == Some(parent),
            final(self).children(r as int).len() == 0,
            final(self).children(parent as int) == old(self).children(parent as int).push(r),
            forall|i: int|
                0 <= i < old(self).len() && i != parent ==> (#[trigger] final(self).node(i))
                    == old(self).node(i),
            final(self).node(parent as int).kind == old(self).node(parent as int).kind,
            final(self).node(parent as int).start == old(self).node(parent as int).start,
            final(self).node(parent as int).end == old(self).node(parent as int).end,
            final(self).node(parent as int).parent == old(self).node(parent as int).parent,
    {
        let new_index = self.nodes.len();
        let old_node = &self.nodes[parent];
        let mut kids: Vec<usize> = Vec::new();
        let mut k: usize = 0;
        while k < old_node.children.len()
            invariant
                k <= old_node.children@.len(),
                kids@ == old_node.children@.subrange(0, k as int),
            decreases old_node.children@.len() - k,
        {
            kids.push(old_node.children[k]);
            k = k + 1;
        }
        assert(kids@ == old_node.children@);
        let position = kids.len();
        kids.push(new_index);
        let updated = SyntaxNode {
            kind: old_node.kind,
            start: old_node.start,
            end: old_node.end,
            parent: old_node.parent,
            index_in_parent: old_node.index_in_parent,
            children: kids,
        };
        let child = SyntaxNode {
            kind,
            start,
            end,
            parent: Some(parent),
            index_in_parent: position,
            children: Vec::new(),
        };
        self.nodes.set(parent, updated);
        self.nodes.push(child);
        let ghost s = *self;
        let ghost o = *old(self);
        assert forall|i: int|
            0 < i < s.len() implies {
            &&& (#[trigger] s.node(i)).parent matches Some(p)
            &&& p < i
            &&& s.node(i).index_in_parent < s.children(p as int).len()
            &&& s.children(p as int)[s.node(i).index_in_parent as int] == i
        } by {
            if i < o.len() {
                assert(o.node(i).parent is Some);
            }
        }
        assert forall|i: int, k: int|
            0 <= i < s.len() && 0 <= k < s.children(i).len() implies {
            &&& i < #[trigger] s.children(i)[k] < s.len()
            &&& s.node(s.children(i)[k] as int).parent == Some(i as usize)
            &&& s.node(s.children(i)[k] as int).index_in_parent == k
        } by {
            if i != parent && i < o.len() {
                assert(o.children(i)[k] == s.children(i)[k]);
            } else if i == parent && k < o.children(i).len() {
                assert(o.children(i)[k] == s.children(i)[k]);
            }
        }
        assert forall|i: int, k: int|
            0 <= i < s.len() && 0 < k < s.children(i).len() implies s.children(i)[k - 1]
                < #[trigger] s.children(i)[k] by {
            if i != parent && i < o.len() {
                assert(o.children(i)[k] == s.children(i)[k]);
                assert(o.children(i)[k - 1] == s.children(i)[k - 1]);
            } else if i == parent {
                assert(s.children(i)[k - 1] == o.children(i)[k - 1]);
                if k < o.children(i).len() {
                    assert(o.children(i)[k] == s.children(i)[k]);
                }
            }
        }
        new_index
    }
}

} // verus!
