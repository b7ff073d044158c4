use vstd::prelude::*;

use crate::text::{chars_of, line_ranges, lines_of};
use crate::tree::{NodeKind, Point, SyntaxTree};

verus! {

#[verifier::external_type_specification]
#[verifier::external_body]
pub struct ExParser(tree_sitter::Parser);

#[verifier::external_type_specification]
#[verifier::external_body]
pub struct ExLanguage(tree_sitter::Language);

#[verifier::external_type_specification]
#[verifier::external_body]
pub struct ExTree(tree_sitter::Tree);

#[verifier::external_type_specification]
#[verifier::external_body]
pub struct ExNode<'tree>(tree_sitter::Node<'tree>);

/// Whether the C grammar parses `text` to a tree without syntax errors.
pub uninterp spec fn c_parses_cleanly(text: Seq<char>) -> bool;

/// Relies on tree_sitter::Parser::new, Parser::set_language with
/// tree_sitter_c::language, Parser::parse and Node::has_error: the tree of
/// `text` where the C grammar parses it without a syntax error. No timeout or
/// cancellation flag is set, so the verdict depends on the text alone.
#[verifier::external_body]
fn parse_c(text: &str) -> (r: Option<tree_sitter::Tree>)
    ensures
        r is Some <==> c_parses_cleanly(text@),
{
    let mut parser = tree_sitter::Parser::new();
    parser.set_language(tree_sitter_c::language()).ok()?;
    let tree = parser.parse(text, None)?;
    if tree.root_node().has_error() {
        None
    } else {
        Some(tree)
    }
}

/// Relies on tree_sitter::Tree::root_node.
#[verifier::external_body]
fn root_node(tree: &tree_sitter::Tree) -> tree_sitter::Node<'_> {
    tree.root_node()
}

/// Relies on tree_sitter::Node::child_count.
#[verifier::external_body]
fn child_count(node: &tree_sitter::Node) -> usize {
    node.child_count()
}

/// Relies on tree_sitter::Node::child: the `i`-th child, if any.
#[verifier::external_body]
fn child<'tree>(node: &tree_sitter::Node<'tree>, i: usize) -> Option<tree_sitter::Node<'tree>> {
    node.child(i)
}

/// Relies on tree_sitter::Node::kind: the grammar's name for the node's kind.
#[verifier::external_body]
fn kind_name(node: &tree_sitter::Node) -> String {
    node.kind().to_string()
}

/// Relies on tree_sitter::Node::start_position: (row, byte column).
#[verifier::external_body]
fn start_position(node: &tree_sitter::Node) -> (usize, usize) {
    let p = node.start_position();
    (p.row, p.column)
}

/// Relies on tree_sitter::Node::end_position: (row, byte column).
#[verifier::external_body]
fn end_position(node: &tree_sitter::Node) -> (usize, usize) {
    let p = node.end_position();
    (p.row, p.column)
}

/// The number of bytes that `c` takes in UTF-8.
pub open spec fn utf8_len(c: char) -> nat {
    let u = c as u32;
    if u < 0x80 {
        1
    } else if u < 0x800 {
        2
    } else if u < 0x10000 {
        3
    } else {
        4
    }
}

/// The number of leading characters of `line` that fit in its first `b` bytes.
pub open spec fn chars_within(line: Seq<char>, b: nat) -> nat
    decreases line.len(),
{
    if line.len() == 0 || utf8_len(line[0]) > b {
        0
    } else {
        1 + chars_within(line.drop_first(), (b - utf8_len(line[0])) as nat)
    }
}

proof fn lemma_chars_within_len(line: Seq<char>, b: nat)
    ensures
        chars_within(line, b) <= line.len(),
    decreases line.len(),
{
    if line.len() > 0 && utf8_len(line[0]) <= b {
        lemma_chars_within_len(line.drop_first(), (b - utf8_len(line[0])) as nat);
    }
}

fn utf8_len_of(c: char) -> (r: usize)
    ensures
        r == utf8_len(c),
{
    let u = c as u32;
    if u < 0x80 {
        1
    } else if u < 0x800 {
        2
    } else if u < 0x10000 {
        3
    } else {
        4
    }
}

/// The character column of byte column `b` of the line `chars[lo..hi]`.
pub fn char_column(chars: &Vec<char>, lo: usize, hi: usize, b: usize) -> (r: usize)
    requires
        lo <= hi <= chars@.len(),
    ensures
        r == chars_within(chars@.subrange(lo as int, hi as int), b as nat),
{
    let mut i: usize = lo;
    let mut left: usize = b;
    while i < hi
        invariant
            lo <= i <= hi <= chars@.len(),
            left <= b,
            chars_within(chars@.subrange(lo as int, hi as int), b as nat) == (i - lo)
                + chars_within(chars@.subrange(i as int, hi as int), left as nat),
        decreases hi - i,
    {
        let w = utf8_len_of(chars[i]);
        let ghost rest = chars@.subrange(i as int, hi as int);
        assert(rest[0] == chars@[i as int]);
        if w > left {
            return i - lo;
        }
        assert(rest.drop_first() =~= chars@.subrange(i + 1, hi as int));
        left = left - w;
        i = i + 1;
    }
    hi - lo
}

/// What the locator and the scope resolver need of a grammar kind name.
pub open spec fn kind_from_name(name: Seq<char>) -> NodeKind {
    if name == "identifier"@ {
        NodeKind::Identifier
    } else if name == "function_definition"@ {
        NodeKind::FunctionDefinition
    } else {
        NodeKind::Other
    }
}

fn kind_of(name: &String) -> (r: NodeKind)
    ensures
        r == kind_from_name(name@),
{
    let identifier = "identifier".to_owned();
    let function_definition = "function_definition".to_owned();
    if *name == identifier {
        NodeKind::Identifier
    } else if *name == function_definition {
        NodeKind::FunctionDefinition
    } else {
        NodeKind::Other
    }
}

/// A position with its byte column turned into a character column.
fn point_of(chars: &Vec<char>, ranges: &Vec<(usize, usize)>, pos: (usize, usize)) -> (r: Point)
    requires
        ranges@.len() == lines_of(chars@).len(),
        forall|i: int|
            0 <= i < ranges@.len() ==> {
                &&& (#[trigger] ranges@[i]).0 <= ranges@[i].1 <= chars@.len()
                &&& chars@.subrange(ranges@[i].0 as int, ranges@[i].1 as int) == lines_of(chars@)[i]
            },
    ensures
        r.row == pos.0,
        SyntaxTree::point_fits(r, lines_of(chars@)),
{
    let (row, column) = pos;
    if row < ranges.len() {
        let (lo, hi) = ranges[row];
        proof {
            lemma_chars_within_len(chars@.subrange(lo as int, hi as int), column as nat);
        }
        Point { row, column: char_column(chars, lo, hi, column) }
    } else {
        Point { row, column }
    }
}

/// Parses `text` with the C grammar into a syntax tree, its nodes numbered in
/// pre-order and their columns counted in characters, each within its line;
/// `None` exactly where the grammar does not parse the text cleanly. A tree
/// of more nodes than `usize::MAX - 1`, which no machine holds, is cut off
/// there.
pub fn parse_c_source(text: &str) -> (r: Option<SyntaxTree>)
    ensures
        r is Some <==> c_parses_cleanly(text@),
        r matches Some(t) ==> t.wf() && t.fits(lines_of(text@)),
{
    let parsed = match parse_c(text) {
        Some(t) => t,
        None => {
            return None;
        },
    };
    let root = root_node(&parsed);
    let chars = chars_of(text);
    let ranges = line_ranges(&chars);
    let mut tree = SyntaxTree::with_root(
        kind_of(&kind_name(&root)),
        point_of(&chars, &ranges, start_position(&root)),
        point_of(&chars, &ranges, end_position(&root)),
    );
    let mut pending: Vec<(tree_sitter::Node, usize)> = Vec::new();
    push_children(&mut pending, &root, 0);
    while pending.len() > 0
        invariant
            tree.wf(),
            forall|i: int| 0 <= i < pending@.len() ==> (#[trigger] pending@[i]).1 < tree.len(),
            chars@ == text@,
            c_parses_cleanly(text@),
            tree.fits(lines_of(text@)),
            ranges@.len() == lines_of(chars@).len(),
            forall|i: int|
                0 <= i < ranges@.len() ==> {
                    &&& (#[trigger] ranges@[i]).0 <= ranges@[i].1 <= chars@.len()
                    &&& chars@.subrange(ranges@[i].0 as int, ranges@[i].1 as int) == lines_of(
                        chars@,
                    )[i]
                },
        decreases usize::MAX - tree.len(),
    {
        if tree.nodes.len() >= usize::MAX - 1 {
            return Some(tree);
        }
        let (node, parent) = pending.pop().unwrap();
        let start = point_of(&chars, &ranges, start_position(&node));
        let end = point_of(&chars, &ranges, end_position(&node));
        let ghost before = tree;
        let index = tree.add_child(parent, kind_of(&kind_name(&node)), start, end);
        assert forall|i: int| 0 <= i < tree.len() implies SyntaxTree::point_fits(
            (#[trigger] tree.node(i)).start,
            lines_of(text@),
        ) && SyntaxTree::point_fits(tree.node(i).end, lines_of(text@)) by {
            if i < before.len() {
                assert(before.node(i).start == tree.node(i).start);
                assert(before.node(i).end == tree.node(i).end);
            }
        }
        push_children(&mut pending, &node, index);
    }
    Some(tree)
}

/// Pushes the children of `node`, last first, each with `parent`.
fn push_children<'tree>(
    pending: &mut Vec<(tree_sitter::Node<'tree>, usize)>,
    node: &tree_sitter::Node<'tree>,
    parent: usize,
)
    ensures
        forall|i: int|
            0 <= i < final(pending)@.len() ==> (#[trigger] final(pending)@[i]).1 == parent || (
            i < old(pending)@.len() && final(pending)@[i] == old(pending)@[i]),
{
    let n = child_count(node);
    let mut k: usize = n;
    while k > 0
        invariant
            k <= n,
            forall|i: int|
                0 <= i < pending@.len() ==> (#[trigger] pending@[i]).1 == parent || (i
                    < old(pending)@.len() && pending@[i] == old(pending)@[i]),
        decreases k,
    {
        k = k - 1;
        if let Some(c) = child(node, k) {
            pending.push((c, parent));
        }
    }
}

} // verus!
