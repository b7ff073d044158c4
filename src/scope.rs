use vstd::prelude::*;

use crate::tree::{NodeKind, SyntaxTree};

verus! {

/// The (start row, end row) of the nearest proper ancestor of `i` that is a
/// function definition; (0, 0) where there is none.
pub open spec fn enclosing_function(t: SyntaxTree, i: usize) -> (usize, usize)
    decreases i,
{
    if i >= t.len() {
        (0, 0)
    } else {
        match t.node(i as int).parent {
            Some(p) => if p >= i {
                (0, 0)
            } else if t.node(p as int).kind == NodeKind::FunctionDefinition {
                (t.node(p as int).start.row, t.node(p as int).end.row)
            } else {
                enclosing_function(t, p)
            },
            None => (0, 0),
        }
    }
}

impl SyntaxTree {
    /// Walks the parent links up from node `i` to the first function definition.
    pub fn enclosing_function_lines(&self, i: usize) -> (r: (usize, usize))
        requires
            self.wf(),
            i < self.len(),
        ensures
            r == enclosing_function(*self, i),
    {
        let mut cur = i;
        loop
            invariant
                self.wf(),
                cur < self.len(),
                enclosing_function(*self, cur) == enclosing_function(*self, i),
            decreases cur,
        {
            match self.nodes[cur].parent {
                Some(p) => {
                    assert(cur > 0);
                    let parent = &self.nodes[p];
                    if parent.kind == NodeKind::FunctionDefinition {
                        return (parent.start.row, parent.end.row);
                    }
                    cur = p;
                },
                None => {
                    return (0, 0);
                },
            }
        }
    }
}

} // verus!
