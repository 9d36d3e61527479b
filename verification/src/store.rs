//! The per-document parse state and its keeper.
//!
//! The store maps a document identifier to its current text, its
//! version and the parse of exactly that text. Every mutating call
//! replaces the stored document wholesale with a freshly parsed one, so
//! the stored parse result is always the parse of the stored text; a
//! version guard keeps a late, out-of-order update from clobbering a
//! newer state.

use vstd::prelude::*;
use crate::entry::{Entry, EntryV};
use crate::errors::ParseError;
use crate::parser::{parse, spec_parse, ErrV};

verus! {

/// One open document: its identifier, its current text and version,
/// and the most recent parse, which was computed from exactly that
/// text.
pub struct Document {
    pub uri: String,
    pub text: String,
    pub version: Option<i32>,
    pub entries: Vec<Entry>,
    pub errors: Vec<ParseError>,
}

/// The mathematical content of a `Document`.
pub struct DocV {
    pub text: Seq<char>,
    pub version: Option<i32>,
    pub entries: Seq<EntryV>,
    pub errors: Seq<ErrV>,
}

impl View for Document {
    type V = DocV;

    open spec fn view(&self) -> DocV {
        DocV {
            text: self.text@,
            version: self.version,
            entries: self.entries@.map_values(|e: Entry| e@),
            errors: self.errors@.map_values(|e: ParseError| e@),
        }
    }
}

/// Whether an update carrying `incoming` may replace a document stored
/// with `stored`: versions, when both are present, must be strictly
/// increasing; an absent version on either side disables the guard.
pub open spec fn version_admits(stored: Option<i32>, incoming: Option<i32>) -> bool {
    match (stored, incoming) {
        (Some(a), Some(b)) => b > a,
        _ => true,
    }
}

/// No two documents of `docs` share an identifier, and each document's
/// stored parse result is the parse of its stored text.
pub open spec fn docs_wf(docs: Seq<Document>) -> bool {
    &&& forall|k1: int, k2: int|
        0 <= k1 < k2 < docs.len() ==> #[trigger] docs[k1].uri@ != #[trigger] docs[k2].uri@
    &&& forall|k: int|
        0 <= k < docs.len() ==> (#[trigger] docs[k]@).entries == spec_parse(docs[k]@.text).0
            && docs[k]@.errors == spec_parse(docs[k]@.text).1
}

/// Whether `docs` holds a document with identifier `uri`.
pub open spec fn docs_contain(docs: Seq<Document>, uri: Seq<char>) -> bool {
    exists|k: int| 0 <= k < docs.len() && #[trigger] docs[k].uri@ == uri
}

/// The document of `docs` stored under `uri`, if any.
pub open spec fn docs_get(docs: Seq<Document>, uri: Seq<char>) -> Option<DocV> {
    if docs_contain(docs, uri) {
        Some(docs[choose|k: int| 0 <= k < docs.len() && #[trigger] docs[k].uri@ == uri]@)
    } else {
        None
    }
}

/// With no two documents sharing an identifier, any index whose
/// document carries `uri` is the one `docs_get` speaks of.
proof fn lemma_found_is_the_one(docs: Seq<Document>, k: int, uri: Seq<char>)
    requires
        docs_wf(docs),
        0 <= k < docs.len(),
        docs[k].uri@ == uri,
    ensures
        docs_contain(docs, uri),
        docs_get(docs, uri) == Some(docs[k]@),
{
    let w = choose|j: int| 0 <= j < docs.len() && #[trigger] docs[j].uri@ == uri;
    if w != k {
        let lo = if w < k {
            w
        } else {
            k
        };
        let hi = if w < k {
            k
        } else {
            w
        };
        assert(docs[lo].uri@ != docs[hi].uri@);
    }
}

/// Replacing the document at `k` with one carrying the same identifier
/// keeps the table well formed and leaves every other identifier's
/// entry untouched.
proof fn lemma_replace(pre: Seq<Document>, post: Seq<Document>, k: int, uri: Seq<char>)
    requires
        docs_wf(pre),
        0 <= k < pre.len(),
        pre[k].uri@ == uri,
        post.len() == pre.len(),
        forall|j: int| 0 <= j < pre.len() && j != k ==> post[j] == pre[j],
        post[k].uri@ == uri,
        post[k]@.entries == spec_parse(post[k]@.text).0,
        post[k]@.errors == spec_parse(post[k]@.text).1,
    ensures
        docs_wf(post),
        docs_get(post, uri) == Some(post[k]@),
        forall|u: Seq<char>| u != uri ==> docs_get(post, u) == docs_get(pre, u),
{
    assert forall|k1: int, k2: int|
        0 <= k1 < k2 < post.len() implies #[trigger] post[k1].uri@
        != #[trigger] post[k2].uri@ by {
        assert(pre[k1].uri@ != pre[k2].uri@);
        assert(post[k1].uri@ == pre[k1].uri@ && post[k2].uri@ == pre[k2].uri@);
    }
    lemma_found_is_the_one(post, k, uri);
    assert forall|u: Seq<char>| u != uri implies docs_get(post, u) == docs_get(pre, u) by {
        if docs_contain(post, u) {
            let w = choose|j: int| 0 <= j < post.len() && #[trigger] post[j].uri@ == u;
            assert(pre[w].uri@ == u);
            lemma_found_is_the_one(pre, w, u);
            lemma_found_is_the_one(post, w, u);
        } else if docs_contain(pre, u) {
            let w = choose|j: int| 0 <= j < pre.len() && #[trigger] pre[j].uri@ == u;
            assert(post[w].uri@ == u);
        }
    }
}

/// Appending a document under a fresh identifier keeps the table well
/// formed and leaves every other identifier's entry untouched.
proof fn lemma_push(pre: Seq<Document>, post: Seq<Document>, uri: Seq<char>)
    requires
        docs_wf(pre),
        !docs_contain(pre, uri),
        post.len() == pre.len() + 1,
        forall|j: int| 0 <= j < pre.len() ==> post[j] == pre[j],
        post[pre.len() as int].uri@ == uri,
        post[pre.len() as int]@.entries == spec_parse(post[pre.len() as int]@.text).0,
        post[pre.len() as int]@.errors == spec_parse(post[pre.len() as int]@.text).1,
    ensures
        docs_wf(post),
        docs_get(post, uri) == Some(post[pre.len() as int]@),
        forall|u: Seq<char>| u != uri ==> docs_get(post, u) == docs_get(pre, u),
{
    let n = pre.len() as int;
    assert forall|k1: int, k2: int|
        0 <= k1 < k2 < post.len() implies #[trigger] post[k1].uri@
        != #[trigger] post[k2].uri@ by {
        if k2 < n {
            assert(pre[k1].uri@ != pre[k2].uri@);
            assert(post[k1].uri@ == pre[k1].uri@ && post[k2].uri@ == pre[k2].uri@);
        } else {
            assert(post[k1].uri@ == pre[k1].uri@);
            if post[k1].uri@ == uri {
                assert(pre[k1].uri@ == uri);
            }
        }
    }
    lemma_found_is_the_one(post, n, uri);
    assert forall|u: Seq<char>| u != uri implies docs_get(post, u) == docs_get(pre, u) by {
        if docs_contain(post, u) {
            let w = choose|j: int| 0 <= j < post.len() && #[trigger] post[j].uri@ == u;
            assert(w < n);
            assert(pre[w].uri@ == u);
            lemma_found_is_the_one(pre, w, u);
            lemma_found_is_the_one(post, w, u);
        } else if docs_contain(pre, u) {
            let w = choose|j: int| 0 <= j < pre.len() && #[trigger] pre[j].uri@ == u;
            assert(post[w].uri@ == u);
        }
    }
}

/// Removing the document at `k` keeps the table well formed, forgets
/// its identifier and leaves every other identifier's entry untouched.
proof fn lemma_remove(pre: Seq<Document>, post: Seq<Document>, k: int, uri: Seq<char>)
    requires
        docs_wf(pre),
        0 <= k < pre.len(),
        pre[k].uri@ == uri,
        post == pre.subrange(0, k) + pre.subrange(k + 1, pre.len() as int),
    ensures
        docs_wf(post),
        !docs_contain(post, uri),
        forall|u: Seq<char>| u != uri ==> docs_get(post, u) == docs_get(pre, u),
{
    assert forall|j: int| 0 <= j < post.len() implies post[j] == pre[if j < k {
        j
    } else {
        j + 1
    }] by {}
    assert forall|k1: int, k2: int|
        0 <= k1 < k2 < post.len() implies #[trigger] post[k1].uri@
        != #[trigger] post[k2].uri@ by {
        let o1 = if k1 < k {
            k1
        } else {
            k1 + 1
        };
        let o2 = if k2 < k {
            k2
        } else {
            k2 + 1
        };
        assert(post[k1].uri@ == pre[o1].uri@ && post[k2].uri@ == pre[o2].uri@);
        assert(pre[o1].uri@ != pre[o2].uri@);
    }
    assert forall|k0: int| 0 <= k0 < post.len() implies (#[trigger] post[k0]@).entries
        == spec_parse(post[k0]@.text).0 && post[k0]@.errors == spec_parse(post[k0]@.text).1 by {
        let o = if k0 < k {
            k0
        } else {
            k0 + 1
        };
        assert(post[k0] == pre[o]);
        assert(pre[o]@.entries == spec_parse(pre[o]@.text).0);
    }
    if docs_contain(post, uri) {
        let w = choose|j: int| 0 <= j < post.len() && #[trigger] post[j].uri@ == uri;
        let o = if w < k {
            w
        } else {
            w + 1
        };
        assert(pre[o].uri@ == uri);
        assert(o != k);
        let lo = if o < k {
            o
        } else {
            k
        };
        let hi = if o < k {
            k
        } else {
            o
        };
        assert(pre[lo].uri@ != pre[hi].uri@);
    }
    assert forall|u: Seq<char>| u != uri implies docs_get(post, u) == docs_get(pre, u) by {
        if docs_contain(post, u) {
            let w = choose|j: int| 0 <= j < post.len() && #[trigger] post[j].uri@ == u;
            let o = if w < k {
                w
            } else {
                w + 1
            };
            assert(post[w] == pre[o]);
            lemma_found_is_the_one(pre, o, u);
            lemma_found_is_the_one(post, w, u);
        } else if docs_contain(pre, u) {
            let o = choose|j: int| 0 <= j < pre.len() && #[trigger] pre[j].uri@ == u;
            assert(o != k);
            let w = if o < k {
                o
            } else {
                o - 1
            };
            assert(post[w] == pre[o]);
            assert(post[w].uri@ == u);
        }
    }
}

/// The keeper of every open document, keyed by identifier.
pub struct DocumentStore {
    docs: Vec<Document>,
}

impl DocumentStore {
    /// No two stored documents share an identifier, and each stored
    /// parse result is the parse of the stored text.
    pub closed spec fn wf(self) -> bool {
        docs_wf(self.docs@)
    }

    /// Whether a document with identifier `uri` is stored.
    pub closed spec fn spec_contains(self, uri: Seq<char>) -> bool {
        docs_contain(self.docs@, uri)
    }

    /// The stored document under `uri`, if any.
    pub closed spec fn spec_get(self, uri: Seq<char>) -> Option<DocV> {
        docs_get(self.docs@, uri)
    }

    /// An empty store.
    pub fn new() -> (s: DocumentStore)
        ensures
            s.wf(),
            forall|u: Seq<char>| s.spec_get(u) is None,
    {
        DocumentStore { docs: Vec::new() }
    }

    /// The index of the document stored under `uri`, if any.
    fn find(&self, uri: &String) -> (r: Option<usize>)
        ensures
            match r {
                Some(k) => k < self.docs@.len() && self.docs@[k as int].uri@ == uri@,
                None => !self.spec_contains(uri@),
            },
    {
        let mut k: usize = 0;
        while k < self.docs.len()
            invariant
                k <= self.docs@.len(),
                forall|j: int| 0 <= j < k ==> #[trigger] self.docs@[j].uri@ != uri@,
            decreases self.docs@.len() - k,
        {
            if self.docs[k].uri == *uri {
                return Some(k);
            }
            k = k + 1;
        }
        None
    }

    /// Stores a freshly opened document: parses `text` and replaces
    /// whatever was stored under `uri`, unconditionally.
    pub fn open(&mut self, uri: String, text: String, version: Option<i32>)
        requires
            old(self).wf(),
        ensures
            final(self).wf(),
            final(self).spec_get(uri@) == Some(
                DocV {
                    text: text@,
                    version: version,
                    entries: spec_parse(text@).0,
                    errors: spec_parse(text@).1,
                },
            ),
            forall|u: Seq<char>| u != uri@ ==> final(self).spec_get(u) == old(self).spec_get(u),
    {
        let (entries, errors) = parse(text.as_str());
        let doc = Document { uri, text, version, entries, errors };
        let ghost pre = self.docs@;
        match self.find(&doc.uri) {
            Some(k) => {
                let ghost u = doc.uri@;
                self.docs[k] = doc;
                proof {
                    lemma_replace(pre, self.docs@, k as int, u);
                }
            },
            None => {
                let ghost u = doc.uri@;
                self.docs.push(doc);
                proof {
                    lemma_push(pre, self.docs@, u);
                }
            },
        }
    }

    /// Applies a full-text update. When the version guard admits the
    /// update, the document is re-parsed and replaced, and the fresh
    /// result is returned; otherwise the store is left exactly as it
    /// was, and the prior result is returned. So an update whose
    /// version is not strictly greater than the stored one cannot
    /// clobber the newer state.
    pub fn apply_full_text(&mut self, uri: &String, text: String, version: Option<i32>) -> (r: (
        Vec<Entry>,
        Vec<ParseError>,
    ))
        requires
            old(self).wf(),
        ensures
            final(self).wf(),
            match old(self).spec_get(uri@) {
                Some(prior) => {
                    if version_admits(prior.version, version) {
                        &&& final(self).spec_get(uri@) == Some(
                            DocV {
                                text: text@,
                                version: version,
                                entries: spec_parse(text@).0,
                                errors: spec_parse(text@).1,
                            },
                        )
                        &&& r.0@.map_values(|e: Entry| e@) == spec_parse(text@).0
                        &&& r.1@.map_values(|e: ParseError| e@) == spec_parse(text@).1
                    } else {
                        &&& *final(self) == *old(self)
                        &&& r.0@.map_values(|e: Entry| e@) == prior.entries
                        &&& r.1@.map_values(|e: ParseError| e@) == prior.errors
                    }
                },
                None => {
                    &&& final(self).spec_get(uri@) == Some(
                        DocV {
                            text: text@,
                            version: version,
                            entries: spec_parse(text@).0,
                            errors: spec_parse(text@).1,
                        },
                    )
                    &&& r.0@.map_values(|e: Entry| e@) == spec_parse(text@).0
                    &&& r.1@.map_values(|e: ParseError| e@) == spec_parse(text@).1
                },
            },
            forall|u: Seq<char>| u != uri@ ==> final(self).spec_get(u) == old(self).spec_get(u),
    {
        let ghost pre = self.docs@;
        match self.find(uri) {
            Some(k) => {
                proof {
                    lemma_found_is_the_one(pre, k as int, uri@);
                }
                let admit_update: bool = match (self.docs[k].version, version) {
                    (Some(a), Some(b)) => b > a,
                    _ => true,
                };
                if admit_update {
                    let (entries, errors) = parse(text.as_str());
                    let r = parse(text.as_str());
                    let doc = Document { uri: uri.clone(), text, version, entries, errors };
                    self.docs[k] = doc;
                    proof {
                        lemma_replace(pre, self.docs@, k as int, uri@);
                    }
                    r
                } else {
                    let r = parse(self.docs[k].text.as_str());
                    r
                }
            },
            None => {
                let (entries, errors) = parse(text.as_str());
                let r = parse(text.as_str());
                let doc = Document { uri: uri.clone(), text, version, entries, errors };
                self.docs.push(doc);
                proof {
                    lemma_push(pre, self.docs@, uri@);
                }
                r
            },
        }
    }

    /// The stored parse result under `uri`, if any.
    pub fn get(&self, uri: &String) -> (r: Option<(&Vec<Entry>, &Vec<ParseError>)>)
        requires
            self.wf(),
        ensures
            match r {
                Some(p) => self.spec_get(uri@) matches Some(d) && p.0@.map_values(|e: Entry| e@)
                    == d.entries && p.1@.map_values(|e: ParseError| e@) == d.errors,
                None => self.spec_get(uri@) is None,
            },
    {
        match self.find(uri) {
            Some(k) => {
                proof {
                    lemma_found_is_the_one(self.docs@, k as int, uri@);
                }
                Some((&self.docs[k].entries, &self.docs[k].errors))
            },
            None => None,
        }
    }

    /// Forgets the document stored under `uri`, if any.
    pub fn close(&mut self, uri: &String)
        requires
            old(self).wf(),
        ensures
            final(self).wf(),
            final(self).spec_get(uri@) is None,
            forall|u: Seq<char>| u != uri@ ==> final(self).spec_get(u) == old(self).spec_get(u),
    {
        let ghost pre = self.docs@;
        match self.find(uri) {
            Some(k) => {
                self.docs.remove(k);
                proof {
                    lemma_remove(pre, self.docs@, k as int, uri@);
                }
            },
            None => {},
        }
    }

    /// Re-parsing the unmodified text of a stored document reproduces
    /// the stored parse result: the stored result is always the parse
    /// of the stored text, so a change notification that carries the
    /// same text cannot change what is reported.
    pub proof fn lemma_reparse_idempotent(self, uri: Seq<char>)
        requires
            self.wf(),
            self.spec_get(uri) is Some,
        ensures
            spec_parse(self.spec_get(uri)->Some_0.text) == (
                self.spec_get(uri)->Some_0.entries,
                self.spec_get(uri)->Some_0.errors,
            ),
    {
        let w = choose|k: int| 0 <= k < self.docs@.len() && #[trigger] self.docs@[k].uri@ == uri;
        assert(self.docs@[w]@.entries == spec_parse(self.docs@[w]@.text).0);
    }
}

} // verus!
