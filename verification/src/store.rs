//! The documents that are open, by their URI.

use vstd::prelude::*;
use vstd::string::*;
use crate::completion::CompletionItem;
use crate::completion::completions;
use crate::completion::items_view;
use crate::document::Document;
use crate::document::DocumentView;
use crate::document::next_revision;
use crate::document::Position;
use crate::hover::HoverInfo;
use crate::hover::info_view;
use crate::text::same_text;

verus! {

/// Why the store could not do what it was asked.
#[derive(Clone, Copy, Debug, PartialEq, Eq, Structural)]
pub enum StoreError {
    /// No document is open under the given URI.
    DocumentNotFound,
}

/// The documents as specifications see them, in their order.
pub open spec fn snapshots_view(documents: Seq<Document>) -> Seq<DocumentView> {
    Seq::new(documents.len(), |i: int| documents[i]@)
}

/// No two of the documents have the same URI.
pub open spec fn distinct(documents: Seq<DocumentView>) -> bool {
    forall|i: int, j: int|
        0 <= i < j < documents.len() ==> (#[trigger] documents[i]).uri != (#[trigger] documents[j]).uri
}

/// A document of that URI is among the documents.
pub open spec fn has_uri(documents: Seq<DocumentView>, uri: Seq<char>) -> bool {
    exists|i: int| 0 <= i < documents.len() && (#[trigger] documents[i]).uri == uri
}

/// The index of a document of that URI.
pub open spec fn slot_of(documents: Seq<DocumentView>, uri: Seq<char>) -> int {
    choose|i: int| 0 <= i < documents.len() && (#[trigger] documents[i]).uri == uri
}

/// The documents as a map from their URIs.
pub open spec fn documents_map(documents: Seq<DocumentView>) -> Map<Seq<char>, DocumentView> {
    Map::new(|uri: Seq<char>| has_uri(documents, uri), |uri: Seq<char>| documents[slot_of(documents, uri)])
}

proof fn lemma_document_at(documents: Seq<DocumentView>, i: int)
    requires
        distinct(documents),
        0 <= i < documents.len(),
    ensures
        documents_map(documents).contains_key(documents[i].uri),
        documents_map(documents)[documents[i].uri] == documents[i],
{
    let uri = documents[i].uri;
    assert(has_uri(documents, uri));
    let j = slot_of(documents, uri);
    if j < i {
        assert(documents[j].uri != documents[i].uri);
    } else if i < j {
        assert(documents[i].uri != documents[j].uri);
    }
}

proof fn lemma_document_replaced(documents: Seq<DocumentView>, k: int, document: DocumentView)
    requires
        distinct(documents),
        0 <= k < documents.len(),
        documents[k].uri == document.uri,
    ensures
        distinct(documents.update(k, document)),
        documents_map(documents.update(k, document)) == documents_map(documents).insert(document.uri, document),
{
    let after = documents.update(k, document);
    assert forall|i: int, j: int| 0 <= i < j < after.len() implies (#[trigger] after[i]).uri != (
    #[trigger] after[j]).uri by {
        assert(documents[i].uri != documents[j].uri);
    }
    assert forall|uri: Seq<char>| has_uri(after, uri) <==> (uri == document.uri || has_uri(documents, uri)) by {
        if has_uri(after, uri) {
            let i = slot_of(after, uri);
            assert(documents[i].uri == uri);
        }
        if has_uri(documents, uri) {
            let i = slot_of(documents, uri);
            assert(after[i].uri == uri);
        }
        if uri == document.uri {
            assert(after[k].uri == uri);
        }
    }
    assert forall|uri: Seq<char>| has_uri(after, uri) implies documents_map(after)[uri] == documents_map(
        documents,
    ).insert(document.uri, document)[uri] by {
        let i = slot_of(after, uri);
        lemma_document_at(after, i);
        if i != k {
            lemma_document_at(documents, i);
            if i < k {
                assert(documents[i].uri != documents[k].uri);
            } else {
                assert(documents[k].uri != documents[i].uri);
            }
        }
    }
    assert(documents_map(after) =~= documents_map(documents).insert(document.uri, document));
}

proof fn lemma_document_added(documents: Seq<DocumentView>, document: DocumentView)
    requires
        distinct(documents),
        !has_uri(documents, document.uri),
    ensures
        distinct(documents.push(document)),
        documents_map(documents.push(document)) == documents_map(documents).insert(document.uri, document),
{
    let after = documents.push(document);
    assert forall|i: int, j: int| 0 <= i < j < after.len() implies (#[trigger] after[i]).uri != (
    #[trigger] after[j]).uri by {
        if j < documents.len() {
            assert(documents[i].uri != documents[j].uri);
        } else {
            assert(after[i] == documents[i]);
        }
    }
    assert forall|uri: Seq<char>| has_uri(after, uri) <==> (uri == document.uri || has_uri(documents, uri)) by {
        if has_uri(after, uri) {
            let i = slot_of(after, uri);
            if i < documents.len() {
                assert(documents[i].uri == uri);
            }
        }
        if has_uri(documents, uri) {
            let i = slot_of(documents, uri);
            assert(after[i].uri == uri);
        }
        if uri == document.uri {
            assert(after[documents.len() as int].uri == uri);
        }
    }
    assert forall|uri: Seq<char>| has_uri(after, uri) implies documents_map(after)[uri] == documents_map(
        documents,
    ).insert(document.uri, document)[uri] by {
        let i = slot_of(after, uri);
        lemma_document_at(after, i);
        if i < documents.len() {
            lemma_document_at(documents, i);
        }
    }
    assert(documents_map(after) =~= documents_map(documents).insert(document.uri, document));
}

proof fn lemma_document_removed(documents: Seq<DocumentView>, k: int)
    requires
        distinct(documents),
        0 <= k < documents.len(),
    ensures
        distinct(documents.remove(k)),
        documents_map(documents.remove(k)) == documents_map(documents).remove(documents[k].uri),
{
    let after = documents.remove(k);
    let gone = documents[k].uri;
    assert forall|i: int| 0 <= i < after.len() implies #[trigger] after[i] == documents[if i < k {
        i
    } else {
        i + 1
    }] by {}
    assert forall|i: int, j: int| 0 <= i < j < after.len() implies (#[trigger] after[i]).uri != (
    #[trigger] after[j]).uri by {
        let a = if i < k {
            i
        } else {
            i + 1
        };
        let b = if j < k {
            j
        } else {
            j + 1
        };
        assert(after[i] == documents[a]);
        assert(after[j] == documents[b]);
        assert(documents[a].uri != documents[b].uri);
    }
    assert forall|uri: Seq<char>| has_uri(after, uri) <==> (uri != gone && has_uri(documents, uri)) by {
        if has_uri(after, uri) {
            let i = slot_of(after, uri);
            let a = if i < k {
                i
            } else {
                i + 1
            };
            assert(after[i] == documents[a]);
            assert(documents[a].uri == uri);
            if a < k {
                assert(documents[a].uri != documents[k].uri);
            } else {
                assert(documents[k].uri != documents[a].uri);
            }
        }
        if uri != gone && has_uri(documents, uri) {
            let a = slot_of(documents, uri);
            let i = if a < k {
                a
            } else {
                a - 1
            };
            assert(after[i] == documents[a]);
            assert(after[i].uri == uri);
        }
    }
    assert forall|uri: Seq<char>| has_uri(after, uri) implies documents_map(after)[uri] == documents_map(
        documents,
    ).remove(gone)[uri] by {
        let i = slot_of(after, uri);
        let a = if i < k {
            i
        } else {
            i + 1
        };
        assert(after[i] == documents[a]);
        lemma_document_at(after, i);
        lemma_document_at(documents, a);
    }
    assert(documents_map(after) =~= documents_map(documents).remove(gone));
}

/// The open documents. Each URI has at most one snapshot, which is replaced
/// as a whole when the document changes.
#[derive(Debug)]
pub struct DocumentStore {
    documents: Vec<Document>,
}

impl View for DocumentStore {
    type V = Map<Seq<char>, DocumentView>;

    closed spec fn view(&self) -> Map<Seq<char>, DocumentView> {
        documents_map(snapshots_view(self.documents@))
    }
}

impl DocumentStore {
    /// No URI is open twice.
    pub closed spec fn wf(&self) -> bool {
        distinct(snapshots_view(self.documents@))
    }

    /// A store in which no document is open.
    pub fn new() -> (store: DocumentStore)
        ensures
            store.wf(),
            store@ == Map::<Seq<char>, DocumentView>::empty(),
    {
        let store = DocumentStore { documents: Vec::new() };
        assert(store@ =~= Map::<Seq<char>, DocumentView>::empty());
        store
    }

    /// The index of the document `uri`, if it is open.
    fn slot(&self, uri: &str) -> (found: Option<usize>)
        ensures
            match found {
                Some(i) => i < self.documents.len() && self.documents@[i as int]@.uri == uri@,
                None => !has_uri(snapshots_view(self.documents@), uri@),
            },
    {
        let mut i: usize = 0;
        while i < self.documents.len()
            invariant
                i <= self.documents.len(),
                forall|j: int| 0 <= j < i ==> (#[trigger] snapshots_view(self.documents@)[j]).uri != uri@,
            decreases self.documents.len() - i,
        {
            if same_text(self.documents[i].uri().as_str(), uri) {
                return Some(i);
            }
            i += 1;
        }
        None
    }

    /// Puts `document` in the place of the snapshot of its URI, or adds it
    /// where the URI is not open.
    fn put(&mut self, found: Option<usize>, document: Document) -> (slot: usize)
        requires
            old(self).wf(),
            match found {
                Some(i) => i < old(self).documents.len() && old(self).documents@[i as int]@.uri == document@.uri,
                None => !has_uri(snapshots_view(old(self).documents@), document@.uri),
            },
        ensures
            final(self).wf(),
            final(self)@ == old(self)@.insert(document@.uri, document@),
            slot < final(self).documents.len(),
            final(self).documents@[slot as int]@ == document@,
    {
        let ghost before = snapshots_view(self.documents@);
        let ghost added = document@;
        match found {
            Some(i) => {
                proof {
                    lemma_document_removed(before, i as int);
                    lemma_document_replaced(before, i as int, added);
                    assert(snapshots_view(self.documents@.remove(i as int)) =~= before.remove(i as int));
                    assert(snapshots_view(self.documents@.remove(i as int).insert(i as int, document)) =~= before.update(
                        i as int,
                        added,
                    ));
                }
                self.documents.remove(i);
                self.documents.insert(i, document);
                i
            },
            None => {
                proof {
                    lemma_document_added(before, added);
                    assert(snapshots_view(self.documents@.push(document)) =~= before.push(added));
                }
                self.documents.push(document);
                self.documents.len() - 1
            },
        }
    }

    /// Opens the document `uri` with the given text, at revision 0, and
    /// hands out its snapshot. A snapshot that was open under that URI is
    /// replaced.
    pub fn open(&mut self, uri: &str, text: &str) -> (document: &Document)
        requires
            old(self).wf(),
        ensures
            final(self).wf(),
            final(self)@.contains_key(uri@),
            final(self)@[uri@].is_snapshot_of(uri@, text@, 0),
            final(self)@ == old(self)@.insert(uri@, final(self)@[uri@]),
            document@ == final(self)@[uri@],
    {
        let found = self.slot(uri);
        let document = Document::analyze(uri, text, 0);
        let slot = self.put(found, document);
        &self.documents[slot]
    }

    /// Replaces the text of the open document `uri` and hands out the new
    /// snapshot, which has the next revision. Fails, and changes nothing,
    /// where no such document is open.
    pub fn change(&mut self, uri: &str, text: &str) -> (r: Result<&Document, StoreError>)
        requires
            old(self).wf(),
        ensures
            final(self).wf(),
            match r {
                Ok(document) => {
                    &&& old(self)@.contains_key(uri@)
                    &&& final(self)@.contains_key(uri@)
                    &&& final(self)@[uri@].is_snapshot_of(uri@, text@, next_revision(old(self)@[uri@].revision))
                    &&& final(self)@ == old(self)@.insert(uri@, final(self)@[uri@])
                    &&& document@ == final(self)@[uri@]
                },
                Err(e) => e == StoreError::DocumentNotFound && !old(self)@.contains_key(uri@) && final(self)@ == old(
                    self,
                )@,
            },
    {
        match self.slot(uri) {
            None => Err(StoreError::DocumentNotFound),
            Some(i) => {
                proof {
                    lemma_document_at(snapshots_view(self.documents@), i as int);
                }
                let revision = self.documents[i].revision();
                let next = if revision < u64::MAX {
                    revision + 1
                } else {
                    revision
                };
                let document = Document::analyze(uri, text, next);
                let slot = self.put(Some(i), document);
                Ok(&self.documents[slot])
            },
        }
    }

    /// Closes the document `uri`. Fails, and changes nothing, where no such
    /// document is open.
    pub fn close(&mut self, uri: &str) -> (r: Result<(), StoreError>)
        requires
            old(self).wf(),
        ensures
            final(self).wf(),
            match r {
                Ok(_) => old(self)@.contains_key(uri@) && final(self)@ == old(self)@.remove(uri@),
                Err(e) => e == StoreError::DocumentNotFound && !old(self)@.contains_key(uri@) && final(self)@ == old(
                    self,
                )@,
            },
    {
        match self.slot(uri) {
            None => Err(StoreError::DocumentNotFound),
            Some(i) => {
                proof {
                    let before = snapshots_view(self.documents@);
                    lemma_document_at(before, i as int);
                    lemma_document_removed(before, i as int);
                    assert(snapshots_view(self.documents@.remove(i as int)) =~= before.remove(i as int));
                }
                self.documents.remove(i);
                Ok(())
            },
        }
    }

    /// The snapshot of the document `uri`.
    pub fn document(&self, uri: &str) -> (r: Result<&Document, StoreError>)
        requires
            self.wf(),
        ensures
            match r {
                Ok(document) => self@.contains_key(uri@) && document@ == self@[uri@],
                Err(e) => e == StoreError::DocumentNotFound && !self@.contains_key(uri@),
            },
    {
        match self.slot(uri) {
            None => Err(StoreError::DocumentNotFound),
            Some(i) => {
                proof {
                    lemma_document_at(snapshots_view(self.documents@), i as int);
                }
                Ok(&self.documents[i])
            },
        }
    }

    /// Lists what can be written at `position` of the document `uri`.
    pub fn query_completion(&self, uri: &str, position: Position) -> (r: Result<Vec<CompletionItem>, StoreError>)
        requires
            self.wf(),
        ensures
            match r {
                Ok(items) => self@.contains_key(uri@) && items_view(items@) == completions(
                    self@[uri@].listing,
                    self@[uri@].context(position),
                ),
                Err(e) => e == StoreError::DocumentNotFound && !self@.contains_key(uri@),
            },
    {
        match self.document(uri) {
            Ok(document) => Ok(document.completion(position)),
            Err(e) => Err(e),
        }
    }

    /// Describes what stands at `position` of the document `uri`.
    pub fn query_hover(&self, uri: &str, position: Position) -> (r: Result<Option<HoverInfo>, StoreError>)
        requires
            self.wf(),
        ensures
            match r {
                Ok(info) => self@.contains_key(uri@) && info_view(info) == self@[uri@].hover(position),
                Err(e) => e == StoreError::DocumentNotFound && !self@.contains_key(uri@),
            },
    {
        match self.document(uri) {
            Ok(document) => Ok(document.hover(position)),
            Err(e) => Err(e),
        }
    }
}

} // verus!
