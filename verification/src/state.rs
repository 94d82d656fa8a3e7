//! Session state: the open documents, the decoded-class index and the
//! compiler session, with every mutation request routed through verified
//! contracts.
//!
//! Documents are held in a vector with unique URIs; lookups and updates
//! are specified against the first (and only) index carrying a URI.

use vstd::prelude::*;
use vstd::hash_map::StringHashMap;

use crate::classfile::Classfile;
use crate::compiler::Compiler;
use crate::document::{rope_text, spec_edited, Document, Position};
use crate::errors::DocumentError;

verus! {

/// The session: open documents keyed by URI, the class index built from
/// the classpath at startup, and the compiler session.
pub struct State {
    pub documents: Vec<Document>,
    pub classes: StringHashMap<Classfile>,
    pub compiler: Compiler,
}

/// The first document carrying the given URI, if any.
pub open spec fn find_doc(docs: Seq<Document>, uri: Seq<char>) -> Option<int>
    decreases docs.len(),
{
    if docs.len() == 0 {
        None
    } else if docs[0].uri@ == uri {
        Some(0)
    } else {
        match find_doc(docs.subrange(1, docs.len() as int), uri) {
            None => None,
            Some(k) => Some(k + 1),
        }
    }
}

proof fn lemma_find_doc_scan(docs: Seq<Document>, uri: Seq<char>, i: int)
    requires
        0 <= i < docs.len(),
        docs[i].uri@ == uri,
        forall|k: int| 0 <= k < i ==> (#[trigger] docs[k]).uri@ != uri,
    ensures
        find_doc(docs, uri) == Some(i),
    decreases docs.len(),
{
    if i > 0 {
        let rest = docs.subrange(1, docs.len() as int);
        assert(forall|k: int| 0 <= k < i - 1 ==> rest[k] == #[trigger] docs[k + 1]);
        lemma_find_doc_scan(rest, uri, i - 1);
    }
}

proof fn lemma_find_doc_found(docs: Seq<Document>, uri: Seq<char>)
    ensures
        find_doc(docs, uri) matches Some(i) ==> 0 <= i < docs.len() && docs[i].uri@ == uri,
    decreases docs.len(),
{
    if docs.len() > 0 && docs[0].uri@ != uri {
        let rest = docs.subrange(1, docs.len() as int);
        lemma_find_doc_found(rest, uri);
    }
}

proof fn lemma_find_doc_none(docs: Seq<Document>, uri: Seq<char>)
    requires
        forall|k: int| 0 <= k < docs.len() ==> (#[trigger] docs[k]).uri@ != uri,
    ensures
        find_doc(docs, uri) is None,
    decreases docs.len(),
{
    if docs.len() > 0 {
        lemma_find_doc_none(docs.subrange(1, docs.len() as int), uri);
    }
}

impl State {
    /// Well-formedness: every open document is well formed and no two
    /// documents share a URI.
    pub open spec fn wf(&self) -> bool {
        &&& forall|i: int|
            0 <= i < self.documents@.len() ==> (#[trigger] self.documents@[i]).wf()
        &&& forall|i: int, j: int|
            0 <= i < self.documents@.len() && 0 <= j < self.documents@.len() && i != j
                ==> (#[trigger] self.documents@[i]).uri@ != (#[trigger] self.documents@[j]).uri@
    }

    /// Builds a session around an already constructed compiler session
    /// and class index, with no document open.
    pub fn new(compiler: Compiler, classes: StringHashMap<Classfile>) -> (r: State)
        ensures
            r.wf(),
            r.documents@.len() == 0,
            r.classes@ == classes@,
            r.compiler.project_kind == compiler.project_kind,
            r.compiler.classpath@ == compiler.classpath@,
    {
        State { documents: Vec::new(), classes, compiler }
    }

    /// The URIs of all open documents, in storage order.
    pub fn documents_uri(&self) -> (r: Vec<String>)
        ensures
            r@.len() == self.documents@.len(),
            forall|i: int|
                0 <= i < r@.len() ==> (#[trigger] r@[i])@ == self.documents@[i].uri@,
    {
        let mut r: Vec<String> = Vec::new();
        let mut i: usize = 0;
        while i < self.documents.len()
            invariant
                i <= self.documents@.len(),
                r@.len() == i,
                forall|k: int|
                    0 <= k < i ==> (#[trigger] r@[k])@ == self.documents@[k].uri@,
            decreases self.documents@.len() - i,
        {
            r.push(self.documents[i].uri.clone());
            i += 1;
        }
        r
    }

    /// Finds the index of the document carrying a URI.
    fn find_document_index(&self, uri: &str) -> (r: Option<usize>)
        ensures
            match find_doc(self.documents@, uri@) {
                None => r is None,
                Some(i) => r matches Some(j) && j == i && i < self.documents@.len(),
            },
    {
        let mut i: usize = 0;
        while i < self.documents.len()
            invariant
                i <= self.documents@.len(),
                forall|k: int|
                    0 <= k < i ==> (#[trigger] self.documents@[k]).uri@ != uri@,
            decreases self.documents@.len() - i,
        {
            if crate::text::str_equal(self.documents[i].uri.as_str(), uri) {
                proof {
                    lemma_find_doc_scan(self.documents@, uri@, i as int);
                }
                return Some(i);
            }
            i += 1;
        }
        proof {
            lemma_find_doc_none(self.documents@, uri@);
        }
        None
    }

    /// The open document carrying a URI, if any.
    pub fn document(&self, uri: &str) -> (r: Option<&Document>)
        ensures
            match find_doc(self.documents@, uri@) {
                None => r is None,
                Some(i) => r matches Some(d) && *d == self.documents@[i],
            },
    {
        match self.find_document_index(uri) {
            None => None,
            Some(i) => Some(&self.documents[i]),
        }
    }

    /// Opens a document (or replaces an open one with the same URI):
    /// the new document starts at version 0 with the given content.
    /// Fails only when the grammar cannot be loaded into a parser, and
    /// then changes nothing.
    pub fn register_document(&mut self, uri: String, content: &str) -> (r: Result<
        (),
        DocumentError,
    >)
        requires
            old(self).wf(),
        ensures
            final(self).wf(),
            final(self).classes@ == old(self).classes@,
            final(self).compiler == old(self).compiler,
            match r {
                Ok(_) => match find_doc(old(self).documents@, uri@) {
                    None => {
                        let d = final(self).documents@.last();
                        &&& final(self).documents@.len() == old(self).documents@.len() + 1
                        &&& final(self).documents@.drop_last() == old(self).documents@
                        &&& d.uri@ == uri@
                        &&& d.version == 0
                        &&& rope_text(d.content) == content@
                    },
                    Some(i) => {
                        let d = final(self).documents@[i];
                        &&& final(self).documents@ == old(self).documents@.update(i, d)
                        &&& d.uri@ == uri@
                        &&& d.version == 0
                        &&& rope_text(d.content) == content@
                    },
                },
                Err(e) => final(self).documents@ == old(self).documents@
                    && e is TreeSitterParserError,
            },
    {
        let idx = self.find_document_index(uri.as_str());
        let ghost uri_view = uri@;
        let doc = match Document::new(uri, content) {
            Err(e) => {
                return Err(e);
            },
            Ok(d) => d,
        };
        match idx {
            Some(i) => {
                let ghost docs0 = self.documents@;
                let _replaced = self.documents.remove(i);
                self.documents.insert(i, doc);
                proof {
                    assert(self.documents@ =~= docs0.update(i as int, self.documents@[i as int]));
                    lemma_find_doc_found(docs0, uri_view);
                    lemma_update_same_uri_distinct(docs0, i as int, self.documents@);
                }
            },
            None => {
                self.documents.push(doc);
                proof {
                    assert(self.documents@.drop_last() =~= old(self).documents@);
                    assert forall|a: int, b: int|
                        0 <= a < self.documents@.len() && 0 <= b < self.documents@.len() && a
                            != b implies (#[trigger] self.documents@[a]).uri@ != (
                    #[trigger] self.documents@[b]).uri@ by {
                        if b == self.documents@.len() - 1 || a == self.documents@.len() - 1 {
                            lemma_find_doc_absent(old(self).documents@, uri_view);
                        }
                    }
                }
            },
        }
        Ok(())
    }

    /// Applies one change notification.  A URI with no open document or
    /// a change not newer than the stored version is a no-op.  A change
    /// with a range edits the document in place and stores the carried
    /// version, keeping the version monotone so duplicates are
    /// suppressed; one without replaces the whole document, resetting
    /// its version to 0.
    pub fn update_document(
        &mut self,
        uri: &str,
        version: i32,
        range: Option<(Position, Position)>,
        text: &str,
    ) -> (r: Result<(), DocumentError>)
        requires
            old(self).wf(),
        ensures
            final(self).wf(),
            final(self).classes@ == old(self).classes@,
            final(self).compiler == old(self).compiler,
            match find_doc(old(self).documents@, uri@) {
                None => final(self).documents@ == old(self).documents@ && r is Ok,
                Some(i) => {
                    let d0 = old(self).documents@[i];
                    if version <= d0.version {
                        final(self).documents@ == old(self).documents@ && r is Ok
                    } else {
                        match range {
                            Some(se) => {
                                let d1 = final(self).documents@[i];
                                &&& final(self).documents@ == old(self).documents@.update(i, d1)
                                &&& d1.uri@ == d0.uri@
                                &&& d1.version == version
                                &&& rope_text(d1.content) == spec_edited(
                                    rope_text(d0.content),
                                    se.0,
                                    se.1,
                                    text@,
                                )
                                &&& r is Ok
                            },
                            None => match r {
                                Ok(_) => {
                                    let d1 = final(self).documents@[i];
                                    &&& final(self).documents@ == old(self).documents@.update(
                                        i,
                                        d1,
                                    )
                                    &&& d1.uri@ == d0.uri@
                                    &&& d1.version == 0
                                    &&& rope_text(d1.content) == text@
                                },
                                Err(e) => final(self).documents@ == old(self).documents@
                                    && e is TreeSitterParserError,
                            },
                        }
                    }
                },
            },
    {
        let idx = match self.find_document_index(uri) {
            None => {
                return Ok(());
            },
            Some(i) => i,
        };
        proof {
            lemma_find_doc_found(self.documents@, uri@);
        }
        let newer = self.documents[idx].should_update(version);
        if !newer {
            return Ok(());
        }
        match range {
            Some(se) => {
                let ghost docs0 = self.documents@;
                let mut doc = self.documents.remove(idx);
                let res = doc.update(se.0, se.1, text);
                doc.version = version;
                self.documents.insert(idx, doc);
                proof {
                    assert(self.documents@ =~= docs0.update(
                        idx as int,
                        self.documents@[idx as int],
                    ));
                    lemma_update_same_uri_distinct(docs0, idx as int, self.documents@);
                }
                res
            },
            None => {
                match Document::new(uri.to_owned(), text) {
                    Err(e) => Err(e),
                    Ok(d) => {
                        let ghost docs0 = self.documents@;
                        let _replaced = self.documents.remove(idx);
                        self.documents.insert(idx, d);
                        proof {
                            assert(self.documents@ =~= docs0.update(
                                idx as int,
                                self.documents@[idx as int],
                            ));
                            lemma_update_same_uri_distinct(docs0, idx as int, self.documents@);
                        }
                        Ok(())
                    },
                }
            },
        }
    }

    /// Closes a document; a URI with no open document is a no-op.
    pub fn unregister_document(&mut self, uri: &str)
        requires
            old(self).wf(),
        ensures
            final(self).wf(),
            final(self).classes@ == old(self).classes@,
            final(self).compiler == old(self).compiler,
            match find_doc(old(self).documents@, uri@) {
                None => final(self).documents@ == old(self).documents@,
                Some(i) => final(self).documents@ == old(self).documents@.remove(i),
            },
    {
        match self.find_document_index(uri) {
            None => {},
            Some(i) => {
                let ghost docs0 = self.documents@;
                let _removed = self.documents.remove(i);
                proof {
                    assert forall|a: int, b: int|
                        0 <= a < self.documents@.len() && 0 <= b < self.documents@.len() && a
                            != b implies (#[trigger] self.documents@[a]).uri@ != (
                    #[trigger] self.documents@[b]).uri@ by {
                        assert(self.documents@ == docs0.remove(i as int));
                    }
                }
            },
        }
    }
}

/// Replacing the document at `i` with one carrying the same URI keeps
/// URIs distinct and documents well formed.
proof fn lemma_update_same_uri_distinct(docs0: Seq<Document>, i: int, docs1: Seq<Document>)
    requires
        0 <= i < docs0.len(),
        docs1 == docs0.update(i, docs1[i]),
        docs1[i].uri@ == docs0[i].uri@,
        docs1[i].wf(),
        forall|k: int| 0 <= k < docs0.len() ==> (#[trigger] docs0[k]).wf(),
        forall|a: int, b: int|
            0 <= a < docs0.len() && 0 <= b < docs0.len() && a != b ==> (#[trigger] docs0[a]).uri@
                != (#[trigger] docs0[b]).uri@,
    ensures
        forall|k: int| 0 <= k < docs1.len() ==> (#[trigger] docs1[k]).wf(),
        forall|a: int, b: int|
            0 <= a < docs1.len() && 0 <= b < docs1.len() && a != b ==> (#[trigger] docs1[a]).uri@
                != (#[trigger] docs1[b]).uri@,
{
    assert(docs1.len() == docs0.len());
    assert forall|a: int, b: int|
        0 <= a < docs1.len() && 0 <= b < docs1.len() && a != b implies (#[trigger] docs1[a]).uri@
        != (#[trigger] docs1[b]).uri@ by {
        assert(docs1[a].uri@ == docs0[a].uri@);
        assert(docs1[b].uri@ == docs0[b].uri@);
    }
}

/// A URI absent from the map matches no stored document.
proof fn lemma_find_doc_absent(docs: Seq<Document>, uri: Seq<char>)
    requires
        find_doc(docs, uri) is None,
    ensures
        forall|k: int| 0 <= k < docs.len() ==> (#[trigger] docs[k]).uri@ != uri,
    decreases docs.len(),
{
    if docs.len() > 0 {
        let rest = docs.subrange(1, docs.len() as int);
        lemma_find_doc_absent(rest, uri);
        assert forall|k: int| 0 <= k < docs.len() implies (#[trigger] docs[k]).uri@ != uri by {
            if k > 0 {
                assert(docs[k] == rest[k - 1]);
            }
        }
    }
}

} // verus!
