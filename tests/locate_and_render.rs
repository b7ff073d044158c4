use sarif_locator::alert::{replace_all_str, resolve_path, strip_prefix_str, Alert};
use sarif_locator::render::RenderedRow;
use sarif_locator::source::SourceCode;
use sarif_locator::tree::{NodeKind, Point, SyntaxTree};

fn pt(row: usize, column: usize) -> Point {
    Point { row, column }
}

const TEN_LINES: &str = "#include <stdio.h>\n\nint main(void)\n{\n  foo = 1;\n  return 0;\n}\n\n/* end */\n\n";

/// A tree for `TEN_LINES`: the function spans rows 2 to 6 and `foo` sits at
/// row 4, columns 2 to 5.
fn ten_line_tree() -> (SyntaxTree, usize) {
    let mut t = SyntaxTree::with_root(NodeKind::Other, pt(0, 0), pt(10, 0));
    let inc = t.add_child(0, NodeKind::Other, pt(0, 0), pt(1, 0));
    t.add_child(inc, NodeKind::Other, pt(0, 9), pt(0, 18));
    let f = t.add_child(0, NodeKind::FunctionDefinition, pt(2, 0), pt(6, 1));
    t.add_child(f, NodeKind::Other, pt(2, 0), pt(2, 3));
    let decl = t.add_child(f, NodeKind::Other, pt(2, 4), pt(2, 14));
    t.add_child(decl, NodeKind::Identifier, pt(2, 4), pt(2, 8));
    let body = t.add_child(f, NodeKind::Other, pt(3, 0), pt(6, 1));
    let stmt = t.add_child(body, NodeKind::Other, pt(4, 2), pt(4, 10));
    let assign = t.add_child(stmt, NodeKind::Other, pt(4, 2), pt(4, 9));
    let foo = t.add_child(assign, NodeKind::Identifier, pt(4, 2), pt(4, 5));
    t.add_child(assign, NodeKind::Other, pt(4, 8), pt(4, 9));
    t.add_child(body, NodeKind::Other, pt(5, 2), pt(5, 11));
    (t, foo)
}

fn ten_line_unit() -> (SourceCode, usize) {
    let (t, foo) = ten_line_tree();
    (SourceCode::with_tree("/src/main.c".to_string(), TEN_LINES.to_string(), Some(t)), foo)
}

#[test]
fn resolves_uri_under_source_root() {
    assert_eq!(resolve_path("file:///a%20b/c.c", "/root"), "/root/a b/c.c");
}

#[test]
fn resolves_relative_uri_without_scheme() {
    assert_eq!(resolve_path("src/x%20y%20z.c", "/w"), "/w/src/x y z.c");
}

#[test]
fn replaces_every_occurrence() {
    assert_eq!(replace_all_str("a%20%20b%2", "%20", " "), "a  b%2");
    assert_eq!(replace_all_str("", "%20", " "), "");
    assert_eq!(replace_all_str("ééxé", "é", "e"), "eexe");
}

#[test]
fn strips_prefix_only_in_front() {
    assert_eq!(strip_prefix_str("file://x/file://y", "file://"), "x/file://y");
    assert_eq!(strip_prefix_str("x/file://y", "file://"), "x/file://y");
}

#[test]
fn alert_without_column_takes_column_one() {
    let a = Alert::new("file:///m.c", "/r", 5, None, "msg");
    assert_eq!(a.column, 1);
    assert_eq!(a.line, 5);
    assert_eq!(a.file, "/r/m.c");
    assert_eq!(a.message, "msg");
    assert_eq!(a.position(), Some((4, 0)));
}

#[test]
fn alert_at_line_zero_has_no_position() {
    let a = Alert::new("m.c", "/r", 0, Some(3), "msg");
    assert_eq!(a.position(), None);
    let b = Alert::new("m.c", "/r", 5, Some(3), "msg");
    assert_eq!(b.position(), Some((4, 2)));
}

#[test]
fn locates_identifier_at_its_start() {
    let (unit, foo) = ten_line_unit();
    assert_eq!(unit.get_node_by_line_and_offset(4, 2), Some(foo));
    assert_eq!(unit.get_node_by_line_and_offset(4, 3), None);
    assert_eq!(unit.get_node_by_line_and_offset(4, 8), None);
}

#[test]
fn encloses_identifier_in_its_function() {
    let (unit, foo) = ten_line_unit();
    assert_eq!(unit.get_parent_function_node_lines(foo), (2, 6));
    assert_eq!(unit.get_parent_function_node_lines(0), (0, 0));
    assert_eq!(unit.get_parent_function_node_lines(1000), (0, 0));
}

#[test]
fn renders_function_with_highlighted_token() {
    let (unit, _) = ten_line_unit();
    let a = Alert::new("file:///main.c", "/src", 5, Some(3), "unused variable");
    let (line, column) = a.position().unwrap();
    let rows = unit.render_function_with_node_by_line_and_offset(line, column, &a.message);
    let expected = vec![
        RenderedRow::Source { number: 3, text: "int main(void)".to_string() },
        RenderedRow::Source { number: 4, text: "{".to_string() },
        RenderedRow::Target {
            number: 5,
            before: "  ".to_string(),
            token: "foo".to_string(),
            after: " = 1;".to_string(),
        },
        RenderedRow::Caret { dashes: 5 },
        RenderedRow::Alert { message: "unused variable".to_string() },
        RenderedRow::Rule { dashes: 6 },
        RenderedRow::Source { number: 6, text: "  return 0;".to_string() },
        RenderedRow::Source { number: 7, text: "}".to_string() },
    ];
    assert_eq!(rows, expected);
}

#[test]
fn missing_column_renders_nothing() {
    let (unit, _) = ten_line_unit();
    let a = Alert::new("file:///main.c", "/src", 5, None, "unused variable");
    let (line, column) = a.position().unwrap();
    assert_eq!(unit.get_node_by_line_and_offset(line, column), None);
    assert!(unit.render_function_with_node_by_line_and_offset(line, column, "m").is_empty());
}

#[test]
fn column_one_never_matches_identifier_at_column_zero() {
    let mut t = SyntaxTree::with_root(NodeKind::Other, pt(0, 0), pt(3, 0));
    let f = t.add_child(0, NodeKind::FunctionDefinition, pt(0, 0), pt(2, 1));
    t.add_child(f, NodeKind::Identifier, pt(1, 0), pt(1, 1));
    let unit = SourceCode::with_tree("x.c".to_string(), "f()\nx\n}\n".to_string(), Some(t));
    assert_eq!(unit.get_node_by_line_and_offset(1, 0), None);
    assert!(unit.render_function_with_node_by_line_and_offset(1, 0, "m").is_empty());
}

#[test]
fn unit_without_tree_renders_nothing() {
    let unit = SourceCode::with_tree("bad.c".to_string(), TEN_LINES.to_string(), None);
    assert_eq!(unit.get_node_by_line_and_offset(4, 2), None);
    assert!(unit.render_function_with_node_by_line_and_offset(4, 2, "m").is_empty());
}

#[test]
fn identical_identifiers_on_two_rows_resolve_by_row() {
    let mut t = SyntaxTree::with_root(NodeKind::Other, pt(0, 0), pt(5, 0));
    let f = t.add_child(0, NodeKind::FunctionDefinition, pt(0, 0), pt(4, 1));
    let first = t.add_child(f, NodeKind::Identifier, pt(1, 2), pt(1, 3));
    let second = t.add_child(f, NodeKind::Identifier, pt(2, 2), pt(2, 3));
    let unit = SourceCode::with_tree("x.c".to_string(), "f\n  x\n  x\n\n}\n".to_string(), Some(t));
    assert_eq!(unit.get_node_by_line_and_offset(1, 2), Some(first));
    assert_eq!(unit.get_node_by_line_and_offset(2, 2), Some(second));
}

#[test]
fn leaf_scans_on_to_its_next_sibling() {
    let mut t = SyntaxTree::with_root(NodeKind::Other, pt(0, 0), pt(2, 0));
    let f = t.add_child(0, NodeKind::FunctionDefinition, pt(0, 0), pt(1, 8));
    t.add_child(f, NodeKind::Other, pt(0, 0), pt(0, 3));
    let inner = t.add_child(f, NodeKind::Other, pt(1, 0), pt(1, 8));
    let id = t.add_child(inner, NodeKind::Identifier, pt(1, 4), pt(1, 7));
    let unit = SourceCode::with_tree("x.c".to_string(), "int\nint abc;\n".to_string(), Some(t));
    assert_eq!(unit.get_node_by_line_and_offset(1, 4), Some(id));
    assert_eq!(unit.get_parent_function_node_lines(id), (0, 1));
}

#[test]
fn highlight_round_trip_keeps_non_ascii_lines() {
    let mut t = SyntaxTree::with_root(NodeKind::Other, pt(0, 0), pt(3, 0));
    let f = t.add_child(0, NodeKind::FunctionDefinition, pt(0, 0), pt(2, 1));
    t.add_child(f, NodeKind::Identifier, pt(1, 4), pt(1, 7));
    let text = "void ñ()\n é, bär = 1;\n}\r\n";
    let unit = SourceCode::with_tree("x.c".to_string(), text.to_string(), Some(t));
    let rows = unit.render_function_with_node_by_line_and_offset(1, 4, "m");
    assert_eq!(rows.len(), 6);
    let mut plain: Vec<String> = Vec::new();
    for r in &rows {
        match r {
            RenderedRow::Source { text, .. } => plain.push(text.clone()),
            RenderedRow::Target { before, token, after, .. } => {
                assert_eq!(token, "bär");
                plain.push(format!("{}{}{}", before, token, after));
            }
            _ => {}
        }
    }
    assert_eq!(plain, vec!["void ñ()", " é, bär = 1;", "}"]);
}

#[test]
fn rendering_twice_gives_the_same_rows() {
    let (unit, _) = ten_line_unit();
    let first = unit.render_function_with_node_by_line_and_offset(4, 2, "unused variable");
    let second = unit.render_function_with_node_by_line_and_offset(4, 2, "unused variable");
    assert_eq!(first, second);
    assert!(!first.is_empty());
}

#[test]
fn no_enclosing_function_renders_nothing() {
    let mut t = SyntaxTree::with_root(NodeKind::Other, pt(0, 0), pt(2, 0));
    let d = t.add_child(0, NodeKind::Other, pt(1, 0), pt(1, 6));
    let id = t.add_child(d, NodeKind::Identifier, pt(1, 4), pt(1, 5));
    let unit = SourceCode::with_tree("x.c".to_string(), "\nint x;\n".to_string(), Some(t));
    assert_eq!(unit.get_node_by_line_and_offset(1, 4), Some(id));
    assert_eq!(unit.get_parent_function_node_lines(id), (0, 0));
    assert!(unit.render_function_with_node_by_line_and_offset(1, 4, "m").is_empty());
}

#[test]
fn token_past_end_of_line_renders_nothing() {
    let mut t = SyntaxTree::with_root(NodeKind::Other, pt(0, 0), pt(3, 0));
    let f = t.add_child(0, NodeKind::FunctionDefinition, pt(0, 0), pt(2, 6));
    t.add_child(f, NodeKind::Identifier, pt(1, 2), pt(2, 5));
    let unit = SourceCode::with_tree("x.c".to_string(), "f\n  ab\n}    x\n".to_string(), Some(t));
    assert!(unit.render_function_with_node_by_line_and_offset(1, 2, "m").is_empty());
}

#[test]
fn add_child_links_parent_and_child() {
    let mut t = SyntaxTree::with_root(NodeKind::Other, pt(0, 0), pt(1, 0));
    let a = t.add_child(0, NodeKind::Other, pt(0, 0), pt(0, 1));
    let b = t.add_child(0, NodeKind::Identifier, pt(0, 2), pt(0, 3));
    assert_eq!((a, b), (1, 2));
    assert_eq!(t.nodes[0].children, vec![1, 2]);
    assert_eq!(t.nodes[2].parent, Some(0));
    assert_eq!(t.nodes[2].index_in_parent, 1);
}

const C_SOURCE: &str = "int helper(int a)\n{\n  return a;\n}\n\nint main(void)\n{\n  int foo = 1;\n  return helper(foo);\n}\n";

#[test]
fn parses_c_and_renders_enclosing_function() {
    let unit = SourceCode::new("main.c".to_string(), C_SOURCE.to_string());
    assert!(unit.tree.is_some());
    let foo = unit.get_node_by_line_and_offset(7, 6).unwrap();
    assert_eq!(unit.get_parent_function_node_lines(foo), (5, 9));
    let rows = unit.render_function_with_node_by_line_and_offset(7, 6, "unused variable");
    assert_eq!(rows.len(), 8);
    assert_eq!(rows[0], RenderedRow::Source { number: 6, text: "int main(void)".to_string() });
    assert_eq!(
        rows[2],
        RenderedRow::Target {
            number: 8,
            before: "  int ".to_string(),
            token: "foo".to_string(),
            after: " = 1;".to_string(),
        }
    );
    assert_eq!(rows[3], RenderedRow::Caret { dashes: 13 });
    assert_eq!(rows[5], RenderedRow::Rule { dashes: 14 });
    assert_eq!(rows[7], RenderedRow::Source { number: 10, text: "}".to_string() });
}

#[test]
fn parsed_positions_lie_within_their_lines() {
    let unit = SourceCode::new("main.c".to_string(), C_SOURCE.to_string());
    let t = unit.tree.as_ref().unwrap();
    let lines: Vec<&str> = C_SOURCE.lines().collect();
    for n in &t.nodes {
        for p in [n.start, n.end] {
            if p.row < lines.len() {
                assert!(p.column <= lines[p.row].chars().count());
            }
        }
    }
}

#[test]
fn parsed_columns_count_characters() {
    let text = "int f(void)\n{\n  /* \u{e9}\u{e9} */ int bar;\n}\n";
    let unit = SourceCode::new("u.c".to_string(), text.to_string());
    let bar = unit.get_node_by_line_and_offset(2, 15).unwrap();
    let t = unit.tree.as_ref().unwrap();
    assert_eq!(t.nodes[bar].end.column, 18);
    let rows = unit.render_function_with_node_by_line_and_offset(2, 15, "m");
    assert_eq!(
        rows[2],
        RenderedRow::Target {
            number: 3,
            before: "  /* \u{e9}\u{e9} */ int ".to_string(),
            token: "bar".to_string(),
            after: ";".to_string(),
        }
    );
}

#[test]
fn syntax_error_leaves_unit_without_tree() {
    let unit = SourceCode::new("bad.c".to_string(), "int main( {\n  foo = ;\n".to_string());
    assert!(unit.tree.is_none());
    assert!(unit.render_function_with_node_by_line_and_offset(1, 2, "m").is_empty());
}
