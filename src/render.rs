use vstd::prelude::*;

verus! {

/// One row of an annotated rendering of a function.
#[derive(Debug, PartialEq, Eq)]
pub enum RenderedRow {
    /// A source line shown as it is, with its one-based number.
    Source { number: usize, text: String },
    /// The target line, cut around the located token.
    Target { number: usize, before: String, token: String, after: String },
    /// A run of dashes followed by a caret.
    Caret { dashes: usize },
    /// The diagnostic message.
    Alert { message: String },
    /// A closing run of dashes.
    Rule { dashes: usize },
}

/// The mathematical value of a `RenderedRow`.
pub enum RowView {
    Source { number: int, text: Seq<char> },
    Target { number: int, before: Seq<char>, token: Seq<char>, after: Seq<char> },
    Caret { dashes: int },
    Alert { message: Seq<char> },
    Rule { dashes: int },
}

impl View for RenderedRow {
    type V = RowView;

    open spec fn view(&self) -> RowView {
        match self {
            RenderedRow::Source { number, text } => RowView::Source {
                number: *number as int,
                text: text@,
            },
            RenderedRow::Target { number, before, token, after } => RowView::Target {
                number: *number as int,
                before: before@,
                token: token@,
                after: after@,
            },
            RenderedRow::Caret { dashes } => RowView::Caret { dashes: *dashes as int },
            RenderedRow::Alert { message } => RowView::Alert { message: message@ },
            RenderedRow::Rule { dashes } => RowView::Rule { dashes: *dashes as int },
        }
    }
}

pub open spec fn rows_view(r: Seq<RenderedRow>) -> Seq<RowView> {
    r.map_values(|x: RenderedRow| x@)
}

/// The rows for source row `r` (zero-based) with text `l`: the target row is
/// cut at the token's columns `s` and `e` and followed by the caret, the
/// message and the closing rule; any other row is shown as it is.
pub open spec fn row_block(l: Seq<char>, r: int, line: int, s: int, e: int, msg: Seq<char>) -> Seq<
    RowView,
> {
    if r == line {
        seq![
            RowView::Target {
                number: r + 1,
                before: l.subrange(0, s),
                token: l.subrange(s, e),
                after: l.subrange(e, l.len() as int),
            },
            RowView::Caret { dashes: e + s - 2 },
            RowView::Alert { message: msg },
            RowView::Rule { dashes: e + s - 1 },
        ]
    } else {
        seq![RowView::Source { number: r + 1, text: l }]
    }
}

/// The rows for source rows `lo` through `hi`, both included.
pub open spec fn function_rows(
    lines: Seq<Seq<char>>,
    lo: int,
    hi: int,
    line: int,
    s: int,
    e: int,
    msg: Seq<char>,
) -> Seq<RowView>
    decreases hi - lo + 1,
{
    if hi < lo {
        Seq::empty()
    } else {
        function_rows(lines, lo, hi - 1, line, s, e, msg) + row_block(
            lines[hi],
            hi,
            line,
            s,
            e,
            msg,
        )
    }
}

/// The text of a rendered row with the token's highlight taken away:
/// a source row or the target row gives back a whole line.
pub open spec fn unmarked_text(v: RowView) -> Option<Seq<char>> {
    match v {
        RowView::Source { text, .. } => Some(text),
        RowView::Target { before, token, after, .. } => Some(before + token + after),
        _ => None,
    }
}

/// The whole lines that the source and target rows of `rows` show, in order,
/// with the token's highlight taken away.
pub open spec fn unmarked_lines(rows: Seq<RowView>) -> Seq<Seq<char>>
    decreases rows.len(),
{
    if rows.len() == 0 {
        Seq::empty()
    } else {
        unmarked_lines(rows.drop_last()) + match unmarked_text(rows.last()) {
            Some(x) => seq![x],
            None => Seq::empty(),
        }
    }
}

proof fn lemma_unmarked_lines_append(a: Seq<RowView>, b: Seq<RowView>)
    ensures
        unmarked_lines(a + b) == unmarked_lines(a) + unmarked_lines(b),
    decreases b.len(),
{
    if b.len() == 0 {
        assert(a + b =~= a);
        assert(unmarked_lines(a) + unmarked_lines(b) =~= unmarked_lines(a));
    } else {
        lemma_unmarked_lines_append(a, b.drop_last());
        assert((a + b).drop_last() =~= a + b.drop_last());
        assert((a + b).last() == b.last());
        assert(unmarked_lines(a + b) =~= unmarked_lines(a) + unmarked_lines(b));
    }
}

/// Taking the highlight away from a rendering of rows `lo` through `hi`
/// gives back those source lines exactly, character for character.
pub proof fn lemma_unmarking_gives_back_lines(
    lines: Seq<Seq<char>>,
    lo: int,
    hi: int,
    line: int,
    s: int,
    e: int,
    msg: Seq<char>,
)
    requires
        0 <= lo <= hi + 1,
        hi < lines.len(),
        lo <= line <= hi ==> 0 <= s <= e <= lines[line].len(),
    ensures
        unmarked_lines(function_rows(lines, lo, hi, line, s, e, msg)) == lines.subrange(lo, hi + 1),
    decreases hi - lo + 1,
{
    if hi < lo {
        assert(lines.subrange(lo, hi + 1) =~= Seq::<Seq<char>>::empty());
    } else {
        lemma_unmarking_gives_back_lines(lines, lo, hi - 1, line, s, e, msg);
        let block = row_block(lines[hi], hi, line, s, e, msg);
        lemma_unmarked_lines_append(function_rows(lines, lo, hi - 1, line, s, e, msg), block);
        let l = lines[hi];
        if hi == line {
            assert(l.subrange(0, s) + l.subrange(s, e) + l.subrange(e, l.len() as int) =~= l);
            let b0 = block.drop_last();
            let b1 = b0.drop_last();
            let b2 = b1.drop_last();
            let b3 = b2.drop_last();
            assert(b3 =~= Seq::<RowView>::empty());
            assert(unmarked_lines(b3) == Seq::<Seq<char>>::empty());
            assert(unmarked_text(b2.last()) == Some(l));
            assert(unmarked_lines(b2) =~= seq![l]);
            assert(unmarked_lines(b1) =~= seq![l]);
            assert(unmarked_lines(b0) =~= seq![l]);
            assert(unmarked_lines(block) =~= seq![l]);
        } else {
            assert(block.drop_last() =~= Seq::<RowView>::empty());
            assert(unmarked_lines(block.drop_last()) == Seq::<Seq<char>>::empty());
            assert(unmarked_text(block.last()) == Some(l));
            assert(unmarked_lines(block) =~= seq![l]);
        }
        assert(lines.subrange(lo, hi + 1) =~= lines.subrange(lo, hi) + seq![l]);
    }
}

} // verus!
