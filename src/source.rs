use vstd::prelude::*;
use vstd::string::StrSliceExecFns;

use crate::grammar::{c_parses_cleanly, parse_c_source};
use crate::locator::{lemma_find_among_sound, locate};
use crate::render::{
    RenderedRow, RowView, function_rows, lemma_unmarking_gives_back_lines, row_block, rows_view,
    unmarked_lines,
};
use crate::scope::enclosing_function;
use crate::text::{chars_of, line_ranges, lines_of};
use crate::tree::SyntaxTree;

verus! {

/// One source file: its path, its full text, and its syntax tree where
/// parsing succeeded.
pub struct SourceCode {
    pub file_path: String,
    pub source_code: String,
    pub tree: Option<SyntaxTree>,
}

/// The rows shown for a diagnostic at (`line`, `column`), both zero-based,
/// with message `msg`: the enclosing function's source rows, the target row
/// cut around the located token and followed by the caret, the message and
/// the rule. Nothing where there is no tree, no located token, no enclosing
/// function, or where the function or the token lies outside the text.
pub open spec fn rendering(
    text: Seq<char>,
    tree: Option<SyntaxTree>,
    line: usize,
    column: usize,
    msg: Seq<char>,
) -> Seq<RowView> {
    match tree {
        None => Seq::empty(),
        Some(t) => match locate(t, line, column) {
            None => Seq::empty(),
            Some(n) => {
                let span = enclosing_function(t, n);
                let fs = span.0 as int;
                let fe = span.1 as int;
                let lines = lines_of(text);
                let s = t.node(n as int).start.column as int;
                let e = t.node(n as int).end.column as int;
                if (fs == 0 && fe == 0) || fs > fe || fe >= lines.len() {
                    Seq::empty()
                } else if fs <= line <= fe && e > lines[line as int].len() {
                    Seq::empty()
                } else if e + s > usize::MAX {
                    Seq::empty()
                } else {
                    function_rows(lines, fs, fe, line as int, s, e, msg)
                }
            },
        },
    }
}

impl SourceCode {
    /// A present tree is well formed, and its nodes' positions lie within
    /// the text: a position on a row of the text has its column within that
    /// row.
    pub open spec fn wf(&self) -> bool {
        self.tree matches Some(t) ==> t.wf() && t.fits(lines_of(self.source_code@))
    }

    /// The unit for a file's text, parsed with the C grammar; without a
    /// tree where parsing fails or finds a syntax error.
    pub fn new(file_path: String, source_code: String) -> (r: SourceCode)
        ensures
            r.wf(),
            r.file_path@ == file_path@,
            r.source_code@ == source_code@,
            r.tree is Some <==> c_parses_cleanly(source_code@),
    {
        let tree = parse_c_source(source_code.as_str());
        SourceCode { file_path, source_code, tree }
    }

    /// The unit for a file's text and a tree already built for it.
    pub fn with_tree(file_path: String, source_code: String, tree: Option<SyntaxTree>) -> (r:
        SourceCode)
        requires
            tree matches Some(t) ==> t.wf() && t.fits(lines_of(source_code@)),
        ensures
            r.wf(),
            r.file_path@ == file_path@,
            r.source_code@ == source_code@,
            r.tree == tree,
    {
        SourceCode { file_path, source_code, tree }
    }

    /// The identifier node that (`line_number`, `offset`), both zero-based,
    /// points at; `None` where there is no tree.
    pub fn get_node_by_line_and_offset(&self, line_number: usize, offset: usize) -> (r: Option<
        usize,
    >)
        requires
            self.wf(),
        ensures
            r == match self.tree {
                Some(t) => locate(t, line_number, offset),
                None => None,
            },
    {
        match &self.tree {
            Some(t) => t.find_node_by_line_and_offset(line_number, offset),
            None => None,
        }
    }

    /// The (start row, end row) of the function that encloses node `node`;
    /// (0, 0) where there is none, no tree, or no such node.
    pub fn get_parent_function_node_lines(&self, node: usize) -> (r: (usize, usize))
        requires
            self.wf(),
        ensures
            r == match self.tree {
                Some(t) => if node < t.len() {
                    enclosing_function(t, node)
                } else {
                    (0, 0)
                },
                None => (0, 0),
            },
    {
        match &self.tree {
            Some(t) => if node < t.nodes.len() {
                t.enclosing_function_lines(node)
            } else {
                (0, 0)
            },
            None => (0, 0),
        }
    }

    /// The rows that show the function around the diagnostic at
    /// (`line_number`, `offset`), both zero-based, with its message.
    pub fn render_function_with_node_by_line_and_offset(
        &self,
        line_number: usize,
        offset: usize,
        message: &str,
    ) -> (r: Vec<RenderedRow>)
        requires
            self.wf(),
        ensures
            rows_view(r@) == rendering(self.source_code@, self.tree, line_number, offset, message@),
    {
        let mut out: Vec<RenderedRow> = Vec::new();
        assert(rows_view(out@) =~= Seq::<RowView>::empty());
        let t = match &self.tree {
            Some(t) => t,
            None => {
                return out;
            },
        };
        let n = match t.find_node_by_line_and_offset(line_number, offset) {
            Some(n) => n,
            None => {
                return out;
            },
        };
        proof {
            lemma_find_among_sound(*t, 0, 0, line_number, offset);
        }
        let (fs, fe) = t.enclosing_function_lines(n);
        let text = self.source_code.as_str();
        let chars = chars_of(text);
        let ranges = line_ranges(&chars);
        let ghost lines = lines_of(chars@);
        let s = t.nodes[n].start.column;
        let e = t.nodes[n].end.column;
        let nlines = ranges.len();
        if (fs == 0 && fe == 0) || fs > fe || fe >= nlines {
            return out;
        }
        if fs <= line_number && line_number <= fe {
            let (a, b) = ranges[line_number];
            if e > b - a {
                return out;
            }
        }
        if e > usize::MAX - s {
            return out;
        }
        let mut r = fs;
        while r <= fe
            invariant
                fs <= r <= fe + 1,
                fe < nlines,
                nlines == ranges@.len(),
                ranges@.len() == lines.len(),
                lines == lines_of(text@),
                chars@ == text@,
                forall|i: int|
                    0 <= i < ranges@.len() ==> {
                        &&& (#[trigger] ranges@[i]).0 <= ranges@[i].1 <= chars@.len()
                        &&& chars@.subrange(ranges@[i].0 as int, ranges@[i].1 as int) == lines[i]
                    },
                1 <= s <= e,
                e + s <= usize::MAX,
                fs <= line_number <= fe ==> e <= lines[line_number as int].len(),
                rows_view(out@) == function_rows(
                    lines,
                    fs as int,
                    r - 1,
                    line_number as int,
                    s as int,
                    e as int,
                    message@,
                ),
            decreases fe + 1 - r,
        {
            let (a, b) = ranges[r];
            let ghost l = lines[r as int];
            let ghost before = rows_view(out@);
            if r == line_number {
                let before_text = text.substring_char(a, a + s);
                let token = text.substring_char(a + s, a + e);
                let after_text = text.substring_char(a + e, b);
                assert(before_text@ =~= l.subrange(0, s as int));
                assert(token@ =~= l.subrange(s as int, e as int));
                assert(after_text@ =~= l.subrange(e as int, l.len() as int));
                out.push(
                    RenderedRow::Target {
                        number: r + 1,
                        before: before_text.to_owned(),
                        token: token.to_owned(),
                        after: after_text.to_owned(),
                    },
                );
                out.push(RenderedRow::Caret { dashes: e + s - 2 });
                out.push(RenderedRow::Alert { message: message.to_owned() });
                out.push(RenderedRow::Rule { dashes: e + s - 1 });
            } else {
                let row_text = text.substring_char(a, b);
                out.push(RenderedRow::Source { number: r + 1, text: row_text.to_owned() });
            }
            assert(rows_view(out@) =~= before + row_block(
                l,
                r as int,
                line_number as int,
                s as int,
                e as int,
                message@,
            ));
            r = r + 1;
        }
        out
    }
}

/// A non-empty rendering, with the token's highlight taken away, gives back
/// the source lines of the enclosing function exactly.
pub proof fn lemma_rendering_round_trip(
    text: Seq<char>,
    tree: Option<SyntaxTree>,
    line: usize,
    column: usize,
    msg: Seq<char>,
)
    ensures
        rendering(text, tree, line, column, msg).len() > 0 ==> {
            &&& tree matches Some(t)
            &&& locate(t, line, column) matches Some(n)
            &&& unmarked_lines(rendering(text, tree, line, column, msg)) == lines_of(text).subrange(
                enclosing_function(t, n).0 as int,
                enclosing_function(t, n).1 + 1,
            )
        },
{
    if let Some(t) = tree {
        lemma_find_among_sound(t, 0, 0, line, column);
        if let Some(n) = locate(t, line, column) {
            let span = enclosing_function(t, n);
            let lines = lines_of(text);
            let s = t.node(n as int).start.column as int;
            let e = t.node(n as int).end.column as int;
            if rendering(text, tree, line, column, msg).len() > 0 {
                lemma_unmarking_gives_back_lines(
                    lines,
                    span.0 as int,
                    span.1 as int,
                    line as int,
                    s,
                    e,
                    msg,
                );
            }
        }
    }
}

/// Rendering depends on the source unit's text and tree alone: the same
/// diagnostic rendered twice against the same unit gives the same rows.
pub proof fn lemma_rendering_repeatable(
    a: SourceCode,
    b: SourceCode,
    line: usize,
    column: usize,
    msg: Seq<char>,
)
    requires
        a.source_code@ == b.source_code@,
        a.tree == b.tree,
    ensures
        rendering(a.source_code@, a.tree, line, column, msg) == rendering(
            b.source_code@,
            b.tree,
            line,
            column,
            msg,
        ),
{
}

} // verus!
