use java_lsp::classpath_indexer::index;
use java_lsp::compiler::{Compiler, ProjectKind};
use java_lsp::document::{Document, Position};
use java_lsp::state::State;

fn pos(line: u32, character: u32) -> Position {
    Position { line, character }
}

fn empty_state() -> State {
    let compiler = Compiler::new(ProjectKind::Javac, String::new());
    State::new(compiler, index(&Vec::new()))
}

#[test]
fn open_parses_full_content() {
    let doc = Document::new(String::from("file:///A.java"), "class A {}").expect("parse");
    assert_eq!(doc.version, 0);
    assert_eq!(doc.uri, "file:///A.java");
    assert_eq!(doc.text(), "class A {}");
}

#[test]
fn version_gate() {
    let doc = Document::new(String::from("file:///A.java"), "class A {}").expect("parse");
    assert!(!doc.should_update(0));
    assert!(!doc.should_update(-1));
    assert!(doc.should_update(1));
    assert!(doc.should_update(42));
}

#[test]
fn range_edit_replaces_text() {
    let mut doc = Document::new(String::from("file:///A.java"), "class A {}").expect("parse");
    doc.update(pos(0, 6), pos(0, 7), "B").expect("edit");
    assert_eq!(doc.text(), "class B {}");
    assert_eq!(doc.version, 0);
}

#[test]
fn reversed_range_edits_the_same_span() {
    let mut doc = Document::new(String::from("file:///A.java"), "class A {}").expect("parse");
    doc.update(pos(0, 7), pos(0, 6), "B").expect("edit");
    assert_eq!(doc.text(), "class B {}");
}

#[test]
fn empty_replacement_deletes() {
    let mut doc = Document::new(String::from("file:///A.java"), "class AB {}").expect("parse");
    doc.update(pos(0, 7), pos(0, 8), "").expect("edit");
    assert_eq!(doc.text(), "class A {}");
}

#[test]
fn multi_line_positions_convert() {
    let mut doc =
        Document::new(String::from("file:///A.java"), "class A {\n  int x;\n}").expect("parse");
    doc.update(pos(1, 6), pos(1, 7), "y").expect("edit");
    assert_eq!(doc.text(), "class A {\n  int y;\n}");
}

#[test]
fn out_of_range_positions_clamp() {
    let mut doc = Document::new(String::from("file:///A.java"), "class A {}").expect("parse");
    doc.update(pos(9, 0), pos(9, 99), "//end").expect("edit");
    assert_eq!(doc.text(), "class A {}//end");
}

#[test]
fn symbol_resolution_through_real_parse() {
    let source = "import java.util.List;\nclass A { List x; }";
    let doc = Document::new(String::from("file:///A.java"), source).expect("parse");
    assert_eq!(
        doc.symbol_at_position(pos(1, 11)),
        Some(String::from("java.util.List"))
    );
    // the field name is a plain identifier
    assert_eq!(doc.symbol_at_position(pos(1, 15)), None);
}

#[test]
fn symbol_without_matching_import_is_none() {
    let source = "import java.util.Map;\nclass A { List x; }";
    let doc = Document::new(String::from("file:///A.java"), source).expect("parse");
    assert_eq!(doc.symbol_at_position(pos(1, 11)), None);
}

#[test]
fn register_and_read_document() {
    let mut state = empty_state();
    state.register_document(String::from("file:///A.java"), "class A {}").expect("open");
    let doc = state.document("file:///A.java").expect("present");
    assert_eq!(doc.text(), "class A {}");
    assert!(state.document("file:///B.java").is_none());
    assert_eq!(state.documents_uri(), vec![String::from("file:///A.java")]);
}

#[test]
fn reopen_replaces_document() {
    let mut state = empty_state();
    state.register_document(String::from("file:///A.java"), "class A {}").expect("open");
    state.register_document(String::from("file:///A.java"), "class B {}").expect("reopen");
    assert_eq!(state.documents_uri().len(), 1);
    assert_eq!(state.document("file:///A.java").expect("present").text(), "class B {}");
}

#[test]
fn stale_version_is_a_no_op() {
    let mut state = empty_state();
    state.register_document(String::from("file:///A.java"), "class A {}").expect("open");
    // version 0 is not newer than the stored version 0: nothing changes
    state
        .update_document("file:///A.java", 0, Some((pos(0, 6), pos(0, 7))), "B")
        .expect("no-op");
    assert_eq!(state.document("file:///A.java").expect("present").text(), "class A {}");
    state
        .update_document("file:///A.java", -3, Some((pos(0, 6), pos(0, 7))), "B")
        .expect("no-op");
    assert_eq!(state.document("file:///A.java").expect("present").text(), "class A {}");
}

#[test]
fn newer_version_applies_range_edit() {
    let mut state = empty_state();
    state.register_document(String::from("file:///A.java"), "class A {}").expect("open");
    state
        .update_document("file:///A.java", 1, Some((pos(0, 6), pos(0, 7))), "B")
        .expect("edit");
    let doc = state.document("file:///A.java").expect("present");
    assert_eq!(doc.text(), "class B {}");
    // the accepted change's version is stored
    assert_eq!(doc.version, 1);
}

#[test]
fn duplicate_change_is_suppressed() {
    let mut state = empty_state();
    state.register_document(String::from("file:///A.java"), "class A {}").expect("open");
    // an insertion at a fixed point would apply twice if not suppressed
    state
        .update_document("file:///A.java", 1, Some((pos(0, 6), pos(0, 6))), "X")
        .expect("edit");
    assert_eq!(state.document("file:///A.java").expect("present").text(), "class XA {}");
    state
        .update_document("file:///A.java", 1, Some((pos(0, 6), pos(0, 6))), "X")
        .expect("no-op");
    assert_eq!(state.document("file:///A.java").expect("present").text(), "class XA {}");
}

#[test]
fn change_without_range_replaces_whole_document() {
    let mut state = empty_state();
    state.register_document(String::from("file:///A.java"), "class A {}").expect("open");
    state.update_document("file:///A.java", 5, None, "class C {}").expect("replace");
    let doc = state.document("file:///A.java").expect("present");
    assert_eq!(doc.text(), "class C {}");
    // the full replacement resets the version
    assert_eq!(doc.version, 0);
}

#[test]
fn update_of_unknown_uri_is_a_no_op() {
    let mut state = empty_state();
    state.update_document("file:///A.java", 1, None, "class A {}").expect("no-op");
    assert!(state.documents_uri().is_empty());
}

#[test]
fn unregister_removes_document() {
    let mut state = empty_state();
    state.register_document(String::from("file:///A.java"), "class A {}").expect("open");
    state.register_document(String::from("file:///B.java"), "class B {}").expect("open");
    state.unregister_document("file:///A.java");
    assert_eq!(state.documents_uri(), vec![String::from("file:///B.java")]);
    state.unregister_document("file:///A.java");
    assert_eq!(state.documents_uri().len(), 1);
}
