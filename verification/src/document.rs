//! The per-file document model: an incrementally edited text buffer and
//! an incrementally reparsed syntax tree, kept in step by every edit.
//!
//! The buffer is a rope and the parser is an incremental grammar parser,
//! both outside crates behind trusted wrappers; position conversion, the
//! edit arithmetic, version gating and symbol resolution are verified.

use vstd::prelude::*;

use crate::errors::DocumentError;
use crate::syntax::{
    build_tree, depths_ok, model_of_dump, spec_symbol_at, symbol_at, RawNode, SyntaxTree,
};

verus! {

/// What a `ropey` rope holds: its characters, in order.
pub uninterp spec fn rope_text(r: ropey::Rope) -> Seq<char>;

/// Whether a parser is ready to parse: it has a language assigned, as
/// `set_language` leaves it, and neither a timeout nor a cancellation
/// flag, which nothing here ever sets.
pub uninterp spec fn parser_ready(p: tree_sitter::Parser) -> bool;

/// What one pre-order walk of a parse tree hands out, reading each
/// node's text from the given source: its category, text, span and
/// depth; a function of the tree and the source text alone.
pub uninterp spec fn tree_dump(t: tree_sitter::Tree, text: Seq<char>) -> Seq<RawNode>;

#[verifier::external_type_specification]
#[verifier::external_body]
pub struct ExRope(ropey::Rope);

#[verifier::external_type_specification]
#[verifier::external_body]
pub struct ExParser(tree_sitter::Parser);

#[verifier::external_type_specification]
#[verifier::external_body]
pub struct ExTree(tree_sitter::Tree);

/// Relies on `ropey::Rope::from_str`: builds a rope holding exactly the
/// given text.
#[verifier::external_body]
fn rope_from_str(s: &str) -> (r: ropey::Rope)
    ensures
        rope_text(r) == s@,
{
    ropey::Rope::from_str(s)
}

/// Relies on `String::from(&Rope)`: writes the rope's text out whole.
#[verifier::external_body]
fn rope_to_string(r: &ropey::Rope) -> (s: String)
    ensures
        s@ == rope_text(*r),
{
    String::from(r)
}

/// Relies on `ropey::Rope::len_chars`: the number of characters held.
#[verifier::external_body]
fn rope_len_chars(r: &ropey::Rope) -> (n: usize)
    ensures
        n == rope_text(*r).len(),
{
    r.len_chars()
}

/// The number of lines a text has: one more than its line feeds.
pub open spec fn spec_len_lines(s: Seq<char>) -> int {
    count_newlines(s) + 1
}

/// The number of line feeds in `s`.
pub open spec fn count_newlines(s: Seq<char>) -> int
    decreases s.len(),
{
    if s.len() == 0 {
        0
    } else {
        count_newlines(s.drop_last()) + if s.last() == '\n' {
            1int
        } else {
            0int
        }
    }
}

/// Relies on `ropey::Rope::len_lines`, with line feeds as the only line
/// break: one more line than there are line feeds.
#[verifier::external_body]
fn rope_len_lines(r: &ropey::Rope) -> (n: usize)
    ensures
        n == spec_len_lines(rope_text(*r)),
{
    r.len_lines()
}

/// The character index just after the next line feed at or after `i`,
/// or the end of the text when no line feed remains.
pub open spec fn skip_line(s: Seq<char>, i: int) -> int
    decreases s.len() - i,
{
    if i < 0 || i >= s.len() {
        s.len() as int
    } else if s[i] == '\n' {
        i + 1
    } else {
        skip_line(s, i + 1)
    }
}

/// The character index at which line `line` starts: line 0 starts at 0,
/// and each next line starts just after the previous line's line feed.
pub open spec fn line_start(s: Seq<char>, line: int) -> int
    decreases line,
{
    if line <= 0 {
        0
    } else {
        skip_line(s, line_start(s, line - 1))
    }
}

proof fn lemma_skip_line_bounds(s: Seq<char>, i: int)
    requires
        0 <= i <= s.len(),
    ensures
        i <= skip_line(s, i) <= s.len(),
    decreases s.len() - i,
{
    if i < s.len() && s[i] != '\n' {
        lemma_skip_line_bounds(s, i + 1);
    }
}

/// Line starts are valid cut points of the text.
pub proof fn lemma_line_start_bounds(s: Seq<char>, line: int)
    ensures
        0 <= line_start(s, line) <= s.len(),
    decreases line,
{
    if line > 0 {
        lemma_line_start_bounds(s, line - 1);
        lemma_skip_line_bounds(s, line_start(s, line - 1));
    }
}

/// Relies on `ropey::Rope::line_to_char`, with line feeds as the only
/// line break: the character index where the given line starts, the
/// one-past-the-end line starting at the end of the text.
#[verifier::external_body]
fn rope_line_to_char(r: &ropey::Rope, line: usize) -> (n: usize)
    requires
        line as int <= spec_len_lines(rope_text(*r)),
    ensures
        n == line_start(rope_text(*r), line as int),
{
    r.line_to_char(line)
}

/// Relies on `ropey::Rope::remove`: removes the character range.
#[verifier::external_body]
fn rope_remove(r: &mut ropey::Rope, start: usize, end: usize)
    requires
        start <= end <= rope_text(*old(r)).len(),
    ensures
        rope_text(*final(r)) == rope_text(*old(r)).subrange(0, start as int) + rope_text(
            *old(r),
        ).subrange(end as int, rope_text(*old(r)).len() as int),
{
    r.remove(start..end)
}

/// Relies on `ropey::Rope::insert`: inserts the text at the character
/// index.
#[verifier::external_body]
fn rope_insert(r: &mut ropey::Rope, at: usize, text: &str)
    requires
        at <= rope_text(*old(r)).len(),
    ensures
        rope_text(*final(r)) == rope_text(*old(r)).subrange(0, at as int) + text@ + rope_text(
            *old(r),
        ).subrange(at as int, rope_text(*old(r)).len() as int),
{
    r.insert(at, text)
}

/// Relies on `tree_sitter::Parser::new` and `set_language` with the
/// Java grammar: a parser ready for Java source, or none when the
/// grammar cannot be loaded.
#[verifier::external_body]
fn ts_parser_new() -> (r: Option<tree_sitter::Parser>)
    ensures
        r matches Some(p) ==> parser_ready(p),
{
    let mut parser = tree_sitter::Parser::new();
    match parser.set_language(&tree_sitter_java::LANGUAGE.into()) {
        Ok(_) => Some(parser),
        Err(_) => None,
    }
}

/// Relies on `tree_sitter::Parser::parse`: parses the text, reusing the
/// prior tree as an incremental hint when one is given.  Its
/// documentation promises a tree unless no language has been assigned,
/// and parsing leaves the language assignment as it was.
#[verifier::external_body]
fn ts_parse(
    parser: &mut tree_sitter::Parser,
    text: &str,
    old_tree: Option<&tree_sitter::Tree>,
) -> (r: Option<tree_sitter::Tree>)
    ensures
        parser_ready(*old(parser)) ==> r is Some,
        parser_ready(*final(parser)) == parser_ready(*old(parser)),
{
    parser.parse(text, old_tree)
}

/// Relies on `tree_sitter::Tree::edit`: records the edited byte range
/// so the next parse reconciles only the touched region.
#[verifier::external_body]
fn ts_tree_edit(
    tree: &mut tree_sitter::Tree,
    start_byte: usize,
    old_end_byte: usize,
    new_end_byte: usize,
) {
    tree.edit(
        &tree_sitter::InputEdit {
            start_byte,
            old_end_byte,
            new_end_byte,
            start_position: tree_sitter::Point::new(0, 0),
            old_end_position: tree_sitter::Point::new(0, 0),
            new_end_position: tree_sitter::Point::new(0, 0),
        },
    )
}

/// Relies on `tree_sitter::TreeCursor`: walks the whole tree in
/// pre-order and hands out each node's category, text, span and depth.
/// The walk visits the single root first and moves one level at a time,
/// so the depths always form one rooted pre-order walk.  A node whose
/// byte span lies outside the given text reads as empty, so the dump is
/// a total function of the tree and the text.
#[verifier::external_body]
fn ts_dump(tree: &tree_sitter::Tree, text: &str) -> (r: Vec<RawNode>)
    ensures
        r@ == tree_dump(*tree, text@),
        depths_ok(r@),
{
    let mut cursor = tree.root_node().walk();
    let (mut out, mut depth) = (Vec::new(), 0usize);
    loop {
        let n = cursor.node();
        let (sp, ep) = (n.start_position(), n.end_position());
        let s = text.as_bytes().get(n.start_byte()..n.end_byte()).unwrap_or(b"");
        out.push(RawNode { kind: n.kind().to_string(), text: String::from_utf8_lossy(s).into_owned(),
            start_row: sp.row, start_col: sp.column, end_row: ep.row, end_col: ep.column, depth });
        if cursor.goto_first_child() { depth += 1; continue; }
        loop {
            if cursor.goto_next_sibling() { break; }
            if !cursor.goto_parent() { return out; }
            depth -= 1;
        }
    }
}

/// A position in a document: line and character offset within the line.
#[derive(Debug, Clone, Copy, PartialEq, Eq, Structural)]
pub struct Position {
    pub line: u32,
    pub character: u32,
}

/// An open document: its URI, the version of the last applied change,
/// the text buffer, the incremental parser and its current tree, and
/// the model of that tree the symbol queries read.
pub struct Document {
    pub uri: String,
    pub version: i32,
    pub content: ropey::Rope,
    pub parser: tree_sitter::Parser,
    pub tree: tree_sitter::Tree,
    pub model: SyntaxTree,
}

/// Whether a candidate change version is newer than the stored one.
pub open spec fn spec_should_update(d: Document, version: i32) -> bool {
    d.version < version
}

/// The buffer index a position denotes: the start of its line (lines
/// past the end clamped to the end) plus the character offset, clamped
/// to the buffer length.
pub open spec fn spec_position_index(s: Seq<char>, line: int, character: int) -> int {
    let l = if line <= spec_len_lines(s) {
        line
    } else {
        spec_len_lines(s)
    };
    let idx = line_start(s, l) + character;
    if idx <= s.len() {
        idx
    } else {
        s.len() as int
    }
}

/// The buffer after one range edit: the text between the two position
/// indices (in either order) replaced by the new text.
pub open spec fn spec_edited(s: Seq<char>, start: Position, end: Position, new_text: Seq<char>) -> Seq<
    char,
> {
    let a = spec_position_index(s, start.line as int, start.character as int);
    let b = spec_position_index(s, end.line as int, end.character as int);
    let lo = if a <= b {
        a
    } else {
        b
    };
    let hi = if a <= b {
        b
    } else {
        a
    };
    s.subrange(0, lo) + new_text + s.subrange(hi, s.len() as int)
}

impl Document {
    /// Well-formedness: the tree model's links all point forward and the
    /// parser still has its grammar.
    pub open spec fn wf(&self) -> bool {
        &&& self.model.wf()
        &&& parser_ready(self.parser)
    }

    /// Opens a document: parses the full content and builds the buffer
    /// and tree from it.  Fails exactly when the grammar cannot be
    /// loaded into a parser; with the grammar loaded the parse always
    /// yields a tree (one with error nodes is a valid outcome), and the
    /// model is built from that tree's dump.
    pub fn new(uri: String, content: &str) -> (r: Result<Document, DocumentError>)
        ensures
            match r {
                Ok(d) => d.wf() && d.version == 0 && d.uri@ == uri@ && rope_text(d.content)
                    == content@ && model_of_dump(tree_dump(d.tree, content@), d.model),
                Err(e) => e is TreeSitterParserError,
            },
    {
        let mut parser = match ts_parser_new() {
            None => {
                return Err(DocumentError::TreeSitterParserError(uri));
            },
            Some(p) => p,
        };
        let tree = match ts_parse(&mut parser, content, None) {
            None => {
                return Err(DocumentError::TreeSitterParseError(uri));
            },
            Some(t) => t,
        };
        let raw = ts_dump(&tree, content);
        let model = match build_tree(&raw) {
            None => {
                return Err(DocumentError::TreeSitterParseError(uri));
            },
            Some(m) => m,
        };
        Ok(
            Document {
                uri,
                version: 0,
                content: rope_from_str(content),
                parser,
                tree,
                model,
            },
        )
    }

    /// Whether a change carrying the given version must be applied:
    /// exactly when it is newer than the stored version.
    pub fn should_update(&self, version: i32) -> (r: bool)
        ensures
            r == spec_should_update(*self, version),
    {
        self.version < version
    }

    /// The buffer's current text.
    pub fn text(&self) -> (r: String)
        ensures
            r@ == rope_text(self.content),
    {
        rope_to_string(&self.content)
    }

    /// Converts a position to a buffer character index, exactly as
    /// [`spec_position_index`] describes.
    pub fn position_index(&self, position: Position) -> (r: usize)
        ensures
            r as int == spec_position_index(
                rope_text(self.content),
                position.line as int,
                position.character as int,
            ),
            r <= rope_text(self.content).len(),
    {
        let nl = rope_len_lines(&self.content);
        let line: usize = if position.line as usize <= nl {
            position.line as usize
        } else {
            nl
        };
        let start = rope_line_to_char(&self.content, line);
        let len = rope_len_chars(&self.content);
        proof {
            lemma_line_start_bounds(rope_text(self.content), line as int);
        }
        if position.character as usize <= len - start {
            start + position.character as usize
        } else {
            len
        }
    }

    /// Applies one range edit: removes the text between the two
    /// positions, inserts the replacement there, describes the edit to
    /// the parser and reparses with the prior tree as reuse hint.  With
    /// the grammar loaded the reparse always yields a tree, so the edit
    /// always succeeds, with the model rebuilt from the new tree's dump;
    /// the error arm guards an unready parser, which well-formedness
    /// rules out.
    pub fn update(&mut self, start: Position, end: Position, updated_content: &str) -> (r: Result<
        (),
        DocumentError,
    >)
        requires
            old(self).wf(),
        ensures
            final(self).wf(),
            final(self).uri@ == old(self).uri@,
            final(self).version == old(self).version,
            rope_text(final(self).content) == spec_edited(
                rope_text(old(self).content),
                start,
                end,
                updated_content@,
            ),
            r is Ok,
            model_of_dump(
                tree_dump(
                    final(self).tree,
                    spec_edited(rope_text(old(self).content), start, end, updated_content@),
                ),
                final(self).model,
            ),
    {
        let a = self.position_index(start);
        let b = self.position_index(end);
        let lo = if a <= b {
            a
        } else {
            b
        };
        let hi = if a <= b {
            b
        } else {
            a
        };
        let ghost s0 = rope_text(self.content);
        rope_remove(&mut self.content, lo, hi);
        if !updated_content.is_empty() {
            rope_insert(&mut self.content, lo, updated_content);
            proof {
                assert(rope_text(self.content) =~= spec_edited(s0, start, end, updated_content@));
            }
        } else {
            proof {
                assert(rope_text(self.content) =~= spec_edited(s0, start, end, updated_content@));
            }
        }
        let new_end: usize = if updated_content.len() <= usize::MAX - lo {
            lo + updated_content.len()
        } else {
            usize::MAX
        };
        ts_tree_edit(&mut self.tree, lo, hi, new_end);
        let text = rope_to_string(&self.content);
        match ts_parse(&mut self.parser, text.as_str(), Some(&self.tree)) {
            None => Err(DocumentError::TreeSitterParseError(self.uri.clone())),
            Some(t) => {
                self.tree = t;
                let raw = ts_dump(&self.tree, text.as_str());
                match build_tree(&raw) {
                    None => Err(DocumentError::TreeSitterParseError(self.uri.clone())),
                    Some(m) => {
                        self.model = m;
                        Ok(())
                    },
                }
            },
        }
    }

    /// Resolves the symbol under a position against the tree's
    /// explicit imports, exactly as [`spec_symbol_at`] describes: the
    /// full text of the first import ending in `.` plus the
    /// type-identifier node under the cursor, and none for any other
    /// node kind or when no import matches.
    pub fn symbol_at_position(&self, position: Position) -> (r: Option<String>)
        requires
            self.wf(),
        ensures
            match spec_symbol_at(
                self.model,
                position.line as int,
                position.character as int,
            ) {
                Some(s) => r matches Some(v) && v@ == s,
                None => r is None,
            },
    {
        symbol_at(&self.model, position.line as usize, position.character as usize)
    }
}

/// The version gate: a document at version `V` rejects every change at
/// or below `V` and accepts every change above it.
pub proof fn lemma_version_gate(d: Document)
    ensures
        forall|v: i32| v <= d.version ==> !spec_should_update(d, v),
        forall|v: i32| v > d.version ==> spec_should_update(d, v),
{
}

} // verus!
