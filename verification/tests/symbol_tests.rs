use java_lsp::syntax::{
    build_tree, collect_imports, find_node_by_point, symbol_at, RawNode, SyntaxTree,
};

fn raw(kind: &str, text: &str, span: (usize, usize, usize, usize), depth: usize) -> RawNode {
    RawNode {
        kind: String::from(kind),
        text: String::from(text),
        start_row: span.0,
        start_col: span.1,
        end_row: span.2,
        end_col: span.3,
        depth,
    }
}

/// The tree of:
/// ```text
/// import java.util.List;
/// class A { List x; }
/// ```
fn sample_tree() -> SyntaxTree {
    let dump = vec![
        raw("program", "import java.util.List;\nclass A { List x; }", (0, 0, 1, 19), 0),
        raw("import_declaration", "import java.util.List;", (0, 0, 0, 23), 1),
        raw("import", "import", (0, 0, 0, 6), 2),
        raw("scoped_identifier", "java.util.List", (0, 7, 0, 21), 2),
        raw(";", ";", (0, 22, 0, 23), 2),
        raw("class_declaration", "class A { List x; }", (1, 0, 1, 19), 1),
        raw("type_identifier", "List", (1, 10, 1, 14), 2),
    ];
    build_tree(&dump).expect("well-formed dump must build")
}

#[test]
fn build_rejects_malformed_depths() {
    assert!(build_tree(&vec![]).is_none());
    assert!(build_tree(&vec![raw("program", "", (0, 0, 0, 0), 1)]).is_none());
    let jump = vec![
        raw("program", "", (0, 0, 0, 9), 0),
        raw("deep", "", (0, 0, 0, 1), 2),
    ];
    assert!(build_tree(&jump).is_none());
}

#[test]
fn collects_import_name_nodes() {
    let t = sample_tree();
    let imports = collect_imports(&t);
    assert_eq!(imports, vec![3]);
    assert_eq!(t.nodes[imports[0]].text, "java.util.List");
}

#[test]
fn finds_smallest_node_at_point() {
    let t = sample_tree();
    assert_eq!(find_node_by_point(&t, 1, 11), 6);
    assert_eq!(find_node_by_point(&t, 0, 8), 3);
    assert_eq!(find_node_by_point(&t, 1, 0), 5);
    // a point outside every child stays at the root
    assert_eq!(find_node_by_point(&t, 9, 0), 0);
}

#[test]
fn resolves_type_identifier_through_import() {
    let t = sample_tree();
    assert_eq!(symbol_at(&t, 1, 11), Some(String::from("java.util.List")));
}

#[test]
fn plain_identifier_resolves_to_none() {
    // same shape, but the node under the cursor is a plain identifier
    let dump = vec![
        raw("program", "import java.util.List;\nclass A { List x; }", (0, 0, 1, 19), 0),
        raw("import_declaration", "import java.util.List;", (0, 0, 0, 23), 1),
        raw("import", "import", (0, 0, 0, 6), 2),
        raw("scoped_identifier", "java.util.List", (0, 7, 0, 21), 2),
        raw(";", ";", (0, 22, 0, 23), 2),
        raw("class_declaration", "class A { List x; }", (1, 0, 1, 19), 1),
        raw("identifier", "x", (1, 15, 1, 16), 2),
    ];
    let t = build_tree(&dump).expect("build");
    assert_eq!(symbol_at(&t, 1, 15), None);
}

#[test]
fn unmatched_type_identifier_resolves_to_none() {
    let dump = vec![
        raw("program", "import java.util.Map;\nclass A { List x; }", (0, 0, 1, 19), 0),
        raw("import_declaration", "import java.util.Map;", (0, 0, 0, 22), 1),
        raw("import", "import", (0, 0, 0, 6), 2),
        raw("scoped_identifier", "java.util.Map", (0, 7, 0, 20), 2),
        raw(";", ";", (0, 21, 0, 22), 2),
        raw("class_declaration", "class A { List x; }", (1, 0, 1, 19), 1),
        raw("type_identifier", "List", (1, 10, 1, 14), 2),
    ];
    let t = build_tree(&dump).expect("build");
    assert_eq!(symbol_at(&t, 1, 11), None);
}

#[test]
fn first_matching_import_wins() {
    let dump = vec![
        raw("program", "", (0, 0, 2, 19), 0),
        raw("import_declaration", "import a.List;", (0, 0, 0, 14), 1),
        raw("import", "import", (0, 0, 0, 6), 2),
        raw("scoped_identifier", "a.List", (0, 7, 0, 13), 2),
        raw("import_declaration", "import b.List;", (1, 0, 1, 14), 1),
        raw("import", "import", (1, 0, 1, 6), 2),
        raw("scoped_identifier", "b.List", (1, 7, 1, 13), 2),
        raw("class_declaration", "class A { List x; }", (2, 0, 2, 19), 1),
        raw("type_identifier", "List", (2, 10, 2, 14), 2),
    ];
    let t = build_tree(&dump).expect("build");
    assert_eq!(symbol_at(&t, 2, 11), Some(String::from("a.List")));
}

#[test]
fn import_without_name_node_is_skipped() {
    // an import declaration with a single child contributes nothing
    let dump = vec![
        raw("program", "", (0, 0, 0, 9), 0),
        raw("import_declaration", "import;", (0, 0, 0, 7), 1),
        raw("import", "import", (0, 0, 0, 6), 2),
    ];
    let t = build_tree(&dump).expect("build");
    assert_eq!(collect_imports(&t), Vec::<usize>::new());
}
