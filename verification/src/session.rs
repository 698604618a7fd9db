//! The live document session's state and its version-guard protocol.
//!
//! Open documents live in a store of (URI, version, text) entries; every
//! edit replaces version and text in one step. Deferred validation work
//! carries the version it was spawned for, and two guards decide its fate:
//! on waking, work proceeds only if its spawn version is still current (and
//! re-reads version and text in one snapshot); before publishing, the
//! version is checked once more. A closed document fails both guards, so a
//! task in flight for it never publishes. The async runtime around the
//! library performs the sleeping and scheduling; every decision is here.

use vstd::prelude::*;
use vstd::string::StringSliceAdditionalSpecFns;

use crate::bytestr::{bytes_of_slice, clone_bytes};

verus! {

/// One open document: its URI, the editor's monotonically advancing version
/// number, and the full current text.
#[derive(Debug)]
pub struct DocEntry {
    pub uri: Vec<u8>,
    pub version: i64,
    pub text: Vec<u8>,
}

/// The open documents of a session.
#[derive(Debug)]
pub struct DocumentStore {
    pub docs: Vec<DocEntry>,
}

/// The index of the entry for a URI, if one exists.
pub open spec fn doc_index(docs: Seq<DocEntry>, uri: Seq<u8>) -> Option<int>
    decreases docs.len(),
{
    if docs.len() == 0 {
        None
    } else if docs[0].uri@ == uri {
        Some(0int)
    } else {
        match doc_index(docs.drop_first(), uri) {
            Some(i) => Some(i + 1),
            None => None,
        }
    }
}

/// Characterization of `doc_index`: it is the first match.
pub proof fn lemma_doc_index(docs: Seq<DocEntry>, uri: Seq<u8>)
    ensures
        match doc_index(docs, uri) {
            Some(i) => 0 <= i < docs.len() && docs[i].uri@ == uri && (forall|j: int|
                0 <= j < i ==> docs[j].uri@ != uri),
            None => forall|j: int| 0 <= j < docs.len() ==> docs[j].uri@ != uri,
        },
    decreases docs.len(),
{
    if docs.len() == 0 {
    } else if docs[0].uri@ == uri {
    } else {
        let tail = docs.drop_first();
        lemma_doc_index(tail, uri);
        match doc_index(tail, uri) {
            Some(i) => {
                assert(tail[i] == docs[i + 1]);
                assert forall|j: int| 0 <= j < i + 1 implies docs[j].uri@ != uri by {
                    if j > 0 {
                        assert(tail[j - 1] == docs[j]);
                    }
                }
            },
            None => {
                assert forall|j: int| 0 <= j < docs.len() implies docs[j].uri@ != uri by {
                    if j > 0 {
                        assert(tail[j - 1] == docs[j]);
                    }
                }
            },
        }
    }
}

impl DocumentStore {
    /// Entries have pairwise distinct URIs.
    pub open spec fn wf(self) -> bool {
        forall|i: int, j: int|
            0 <= i < j < self.docs@.len() ==> #[trigger] self.docs@[i].uri@ != #[trigger] self.docs@[j].uri@
    }

    /// Whether a URI is open.
    pub open spec fn is_open(self, uri: Seq<u8>) -> bool {
        doc_index(self.docs@, uri) is Some
    }

    /// The version of an open document.
    pub open spec fn version_of(self, uri: Seq<u8>) -> int {
        self.docs@[doc_index(self.docs@, uri)->0].version as int
    }

    /// The text of an open document.
    pub open spec fn text_of(self, uri: Seq<u8>) -> Seq<u8> {
        self.docs@[doc_index(self.docs@, uri)->0].text@
    }

    /// An empty session.
    pub fn new() -> (r: DocumentStore)
        ensures
            r.wf(),
            r.docs@.len() == 0,
    {
        DocumentStore { docs: Vec::new() }
    }

    /// Find the entry index of a URI.
    fn find(&self, uri: &[u8]) -> (r: Option<usize>)
        ensures
            match r {
                Some(i) => doc_index(self.docs@, uri@) == Some(i as int) && (i as int)
                    < self.docs@.len() && self.docs@[i as int].uri@ == uri@,
                None => doc_index(self.docs@, uri@) is None,
            },
    {
        proof {
            lemma_doc_index(self.docs@, uri@);
        }
        let mut i: usize = 0;
        while i < self.docs.len()
            invariant
                i <= self.docs@.len(),
                forall|j: int| 0 <= j < i ==> self.docs@[j].uri@ != uri@,
                match doc_index(self.docs@, uri@) {
                    Some(k) => 0 <= k < self.docs@.len() && self.docs@[k].uri@ == uri@ && (forall|
                        j: int,
                    | 0 <= j < k ==> self.docs@[j].uri@ != uri@),
                    None => forall|j: int| 0 <= j < self.docs@.len() ==> self.docs@[j].uri@ != uri@,
                },
            decreases self.docs@.len() - i,
        {
            if crate::bytestr::slices_eq(self.docs[i].uri.as_slice(), uri) {
                return Some(i);
            }
            i = i + 1;
        }
        None
    }

    /// Record a document open or change: the URI's entry is created or
    /// replaced with the new version and text in one step, so navigation
    /// features immediately see the latest buffer. Every other document is
    /// untouched.
    pub fn upsert(&mut self, uri: &[u8], version: i64, text: Vec<u8>)
        requires
            old(self).wf(),
        ensures
            final(self).wf(),
            final(self).is_open(uri@),
            final(self).version_of(uri@) == version as int,
            final(self).text_of(uri@) == text@,
            forall|u: Seq<u8>|
                u != uri@ ==> (#[trigger] final(self).is_open(u) == old(self).is_open(u))
                    && (old(self).is_open(u) ==> final(self).version_of(u) == old(
                    self,
                ).version_of(u) && final(self).text_of(u) == old(self).text_of(u)),
    {
        proof {
            lemma_doc_index(self.docs@, uri@);
        }
        let entry = DocEntry { uri: bytes_of_slice(uri), version, text };
        match self.find(uri) {
            Some(i) => {
                let ghost pre = self.docs@;
                self.docs.set(i, entry);
                proof {
                    lemma_update_preserves(pre, i as int, self.docs@[i as int], uri@);
                }
            },
            None => {
                let ghost pre = self.docs@;
                self.docs.push(entry);
                proof {
                    lemma_doc_push_preserves(pre, self.docs@.last(), uri@);
                }
            },
        }
    }

    /// Remove a document on close. Returns whether it was open; every other
    /// document is untouched. The close handler publishes an empty
    /// diagnostic set itself, synchronously — any task still in flight for
    /// this URI now fails both guards and publishes nothing.
    pub fn close(&mut self, uri: &[u8]) -> (r: bool)
        requires
            old(self).wf(),
        ensures
            final(self).wf(),
            r == old(self).is_open(uri@),
            !final(self).is_open(uri@),
            forall|u: Seq<u8>|
                u != uri@ ==> (#[trigger] final(self).is_open(u) == old(self).is_open(u))
                    && (old(self).is_open(u) ==> final(self).version_of(u) == old(
                    self,
                ).version_of(u) && final(self).text_of(u) == old(self).text_of(u)),
    {
        proof {
            lemma_doc_index(self.docs@, uri@);
        }
        match self.find(uri) {
            Some(i) => {
                let ghost pre = self.docs@;
                let _ = self.docs.remove(i);
                proof {
                    lemma_doc_remove_preserves(pre, i as int, uri@);
                }
                true
            },
            None => false,
        }
    }

    /// The version to stamp on a deferred validation task at spawn time, if
    /// the document is open.
    pub fn spawn_version(&self, uri: &[u8]) -> (r: Option<i64>)
        ensures
            match r {
                Some(v) => self.is_open(uri@) && v as int == self.version_of(uri@),
                None => !self.is_open(uri@),
            },
    {
        match self.find(uri) {
            Some(i) => Some(self.docs[i].version),
            None => None,
        }
    }

    /// The wake-time guard of a deferred task: re-read version and text in
    /// one snapshot. Nothing is returned — and the task abandons its work —
    /// when the document was closed during the wait or a newer edit has
    /// taken over the version; otherwise the snapshot is exactly the
    /// current version and text.
    pub fn wake_snapshot(&self, uri: &[u8], spawn_version: i64) -> (r: Option<(i64, Vec<u8>)>)
        ensures
            match r {
                Some(s) => self.is_open(uri@) && self.version_of(uri@) == spawn_version as int
                    && s.0 == spawn_version && s.1@ == self.text_of(uri@),
                None => !self.is_open(uri@) || self.version_of(uri@) != spawn_version as int,
            },
    {
        match self.find(uri) {
            Some(i) => {
                if self.docs[i].version == spawn_version {
                    Some((spawn_version, clone_bytes(&self.docs[i].text)))
                } else {
                    None
                }
            },
            None => None,
        }
    }

    /// The publish-time guard: a result computed for `version` may be
    /// published only while the document is still open at that version.
    pub fn may_publish(&self, uri: &[u8], version: i64) -> (r: bool)
        ensures
            r == (self.is_open(uri@) && self.version_of(uri@) == version as int),
    {
        match self.find(uri) {
            Some(i) => self.docs[i].version == version,
            None => false,
        }
    }

    /// The open URIs, for revalidating every document after an
    /// invalidation.
    pub fn open_uris(&self) -> (r: Vec<Vec<u8>>)
        ensures
            r@.len() == self.docs@.len(),
            forall|i: int| 0 <= i < r@.len() ==> (#[trigger] r@[i])@ == self.docs@[i].uri@,
    {
        let mut out: Vec<Vec<u8>> = Vec::new();
        let mut i: usize = 0;
        while i < self.docs.len()
            invariant
                i <= self.docs@.len(),
                out@.len() == i,
                forall|j: int| 0 <= j < i ==> (#[trigger] out@[j])@ == self.docs@[j].uri@,
            decreases self.docs@.len() - i,
        {
            out.push(clone_bytes(&self.docs[i].uri));
            i = i + 1;
        }
        out
    }
}

/// Replacing the entry at a URI's own index keeps URIs distinct and every
/// other document untouched.
proof fn lemma_update_preserves(docs: Seq<DocEntry>, i: int, new: DocEntry, uri: Seq<u8>)
    requires
        0 <= i < docs.len(),
        docs[i].uri@ == uri,
        new.uri@ == uri,
        forall|a: int, b: int|
            0 <= a < b < docs.len() ==> #[trigger] docs[a].uri@ != #[trigger] docs[b].uri@,
    ensures
        ({
            let upd = docs.update(i, new);
            &&& forall|a: int, b: int|
                0 <= a < b < upd.len() ==> #[trigger] upd[a].uri@ != #[trigger] upd[b].uri@
            &&& doc_index(upd, uri) == Some(i)
            &&& forall|u: Seq<u8>|
                u != uri ==> #[trigger] doc_index(upd, u) == doc_index(docs, u)
            &&& forall|u: Seq<u8>|
                u != uri && doc_index(upd, u) is Some ==> upd[(#[trigger] doc_index(upd, u))->0]
                    == docs[doc_index(docs, u)->0]
        }),
{
    let upd = docs.update(i, new);
    assert forall|a: int, b: int| 0 <= a < b < upd.len() implies #[trigger] upd[a].uri@
        != #[trigger] upd[b].uri@ by {
        if a != i && b != i {
            assert(upd[a] == docs[a] && upd[b] == docs[b]);
        } else if a == i {
            assert(upd[b] == docs[b]);
            assert(docs[i].uri@ != docs[b].uri@);
        } else {
            assert(upd[a] == docs[a]);
            assert(docs[a].uri@ != docs[i].uri@);
        }
    }
    lemma_doc_index_unique(docs, upd, uri, i);
    assert forall|u: Seq<u8>| u != uri && doc_index(upd, u) is Some implies upd[(
    #[trigger] doc_index(upd, u))->0] == docs[doc_index(docs, u)->0] by {
        lemma_doc_index(upd, u);
        let k = doc_index(upd, u)->0;
        assert(upd[k].uri@ == u);
        assert(k != i);
        assert(upd[k] == docs[k]);
    }
}

/// Two URI-distinct sequences that agree except at one index whose entry
/// keeps its URI have the same lookup structure.
proof fn lemma_doc_index_unique(docs: Seq<DocEntry>, upd: Seq<DocEntry>, uri: Seq<u8>, i: int)
    requires
        docs.len() == upd.len(),
        0 <= i < docs.len(),
        docs[i].uri@ == uri,
        upd[i].uri@ == uri,
        forall|j: int| 0 <= j < docs.len() && j != i ==> #[trigger] upd[j] == docs[j],
        forall|a: int, b: int|
            0 <= a < b < docs.len() ==> #[trigger] docs[a].uri@ != #[trigger] docs[b].uri@,
    ensures
        doc_index(upd, uri) == Some(i),
        forall|u: Seq<u8>| u != uri ==> #[trigger] doc_index(upd, u) == doc_index(docs, u),
{
    lemma_doc_index(upd, uri);
    lemma_doc_index(docs, uri);
    match doc_index(upd, uri) {
        Some(k) => {
            if k != i {
                if k < i {
                    assert(upd[k] == docs[k]);
                    assert(docs[k].uri@ != docs[i].uri@);
                } else {
                    assert(upd[k] == docs[k]);
                    assert(docs[i].uri@ != docs[k].uri@);
                }
                assert(false);
            }
        },
        None => {
            assert(upd[i].uri@ != uri);
            assert(false);
        },
    }
    assert forall|u: Seq<u8>| u != uri implies #[trigger] doc_index(upd, u) == doc_index(docs, u) by {
        lemma_doc_index_same(docs, upd, u, i);
    }
    assert forall|u: Seq<u8>| u != uri && doc_index(upd, u) is Some implies upd[(
    #[trigger] doc_index(upd, u))->0] == docs[doc_index(docs, u)->0] by {
        lemma_doc_index(upd, u);
        let k = doc_index(upd, u)->0;
        assert(k != i);
        assert(upd[k] == docs[k]);
    }
}

/// Lookup for a URI other than the replaced entry's is unchanged.
proof fn lemma_doc_index_same(docs: Seq<DocEntry>, upd: Seq<DocEntry>, u: Seq<u8>, i: int)
    requires
        docs.len() == upd.len(),
        0 <= i < docs.len(),
        docs[i].uri@ != u,
        upd[i].uri@ != u,
        forall|j: int| 0 <= j < docs.len() && j != i ==> #[trigger] upd[j] == docs[j],
    ensures
        doc_index(upd, u) == doc_index(docs, u),
{
    lemma_doc_index(docs, u);
    lemma_doc_index(upd, u);
    match (doc_index(docs, u), doc_index(upd, u)) {
        (Some(a), Some(b)) => {
            assert(a != i && b != i);
            assert(upd[a] == docs[a]);
            assert(docs[b] == upd[b]);
            if a < b {
                assert(upd[a].uri@ != u || true);
                assert(upd[a].uri@ == u);
            }
            if b < a {
                assert(docs[b].uri@ == u);
            }
        },
        (Some(a), None) => {
            assert(a != i);
            assert(upd[a] == docs[a]);
            assert(upd[a].uri@ != u);
            assert(false);
        },
        (None, Some(b)) => {
            assert(b != i);
            assert(upd[b] == docs[b]);
            assert(docs[b].uri@ != u);
            assert(false);
        },
        (None, None) => {},
    }
}

/// Pushing an entry with a fresh URI keeps URIs distinct and every other
/// document's lookup unchanged.
proof fn lemma_doc_push_preserves(docs: Seq<DocEntry>, new: DocEntry, uri: Seq<u8>)
    requires
        new.uri@ == uri,
        doc_index(docs, uri) is None,
        forall|a: int, b: int|
            0 <= a < b < docs.len() ==> #[trigger] docs[a].uri@ != #[trigger] docs[b].uri@,
    ensures
        ({
            let ext = docs.push(new);
            &&& forall|a: int, b: int|
                0 <= a < b < ext.len() ==> #[trigger] ext[a].uri@ != #[trigger] ext[b].uri@
            &&& doc_index(ext, uri) == Some(docs.len() as int)
            &&& forall|u: Seq<u8>|
                u != uri ==> #[trigger] doc_index(ext, u) == doc_index(docs, u)
            &&& forall|u: Seq<u8>|
                u != uri && doc_index(ext, u) is Some ==> ext[(#[trigger] doc_index(ext, u))->0]
                    == docs[doc_index(docs, u)->0]
        }),
{
    let ext = docs.push(new);
    lemma_doc_index(docs, uri);
    assert forall|a: int, b: int| 0 <= a < b < ext.len() implies #[trigger] ext[a].uri@
        != #[trigger] ext[b].uri@ by {
        if b < docs.len() {
            assert(ext[a] == docs[a] && ext[b] == docs[b]);
        } else {
            assert(ext[b] == new);
            assert(ext[a] == docs[a]);
            assert(docs[a].uri@ != uri);
        }
    }
    lemma_doc_index(ext, uri);
    match doc_index(ext, uri) {
        Some(k) => {
            if k < docs.len() {
                assert(ext[k] == docs[k]);
                assert(false);
            }
        },
        None => {
            assert(ext[docs.len() as int].uri@ == uri);
            assert(false);
        },
    }
    assert forall|u: Seq<u8>| u != uri implies #[trigger] doc_index(ext, u) == doc_index(docs, u)
        && (doc_index(ext, u) is Some ==> ext[doc_index(ext, u)->0] == docs[doc_index(
        docs,
        u,
    )->0]) by {
        lemma_doc_index(docs, u);
        lemma_doc_index(ext, u);
        match doc_index(docs, u) {
            Some(a) => {
                assert(ext[a] == docs[a]);
                if doc_index(ext, u) is None {
                    assert(ext[a].uri@ != u);
                    assert(false);
                }
                let b = doc_index(ext, u)->0;
                if b != a {
                    if b < docs.len() {
                        assert(ext[b] == docs[b]);
                        if a < b {
                            assert(docs[a].uri@ != docs[b].uri@);
                        } else {
                            assert(docs[b].uri@ != docs[a].uri@);
                        }
                        assert(false);
                    } else {
                        assert(ext[b] == new);
                        assert(false);
                    }
                }
            },
            None => {
                if doc_index(ext, u) is Some {
                    let b = doc_index(ext, u)->0;
                    if b < docs.len() {
                        assert(ext[b] == docs[b]);
                        assert(docs[b].uri@ != u);
                        assert(false);
                    } else {
                        assert(ext[b] == new);
                        assert(false);
                    }
                }
            },
        }
    }
}

/// Removing the entry at a URI's own index keeps URIs distinct, closes
/// exactly that URI, and leaves every other document untouched.
proof fn lemma_doc_remove_preserves(docs: Seq<DocEntry>, i: int, uri: Seq<u8>)
    requires
        0 <= i < docs.len(),
        docs[i].uri@ == uri,
        forall|a: int, b: int|
            0 <= a < b < docs.len() ==> #[trigger] docs[a].uri@ != #[trigger] docs[b].uri@,
    ensures
        ({
            let rest = docs.remove(i);
            &&& forall|a: int, b: int|
                0 <= a < b < rest.len() ==> #[trigger] rest[a].uri@ != #[trigger] rest[b].uri@
            &&& doc_index(rest, uri) is None
            &&& forall|u: Seq<u8>|
                u != uri ==> ((#[trigger] doc_index(rest, u)) is Some <==> doc_index(docs, u)
                    is Some)
            &&& forall|u: Seq<u8>|
                u != uri && doc_index(rest, u) is Some ==> rest[(#[trigger] doc_index(
                    rest,
                    u,
                ))->0] == docs[doc_index(docs, u)->0]
        }),
{
    let rest = docs.remove(i);
    assert forall|a: int, b: int| 0 <= a < b < rest.len() implies #[trigger] rest[a].uri@
        != #[trigger] rest[b].uri@ by {
        let a0 = if a < i {
            a
        } else {
            a + 1
        };
        let b0 = if b < i {
            b
        } else {
            b + 1
        };
        assert(rest[a] == docs[a0]);
        assert(rest[b] == docs[b0]);
        assert(docs[a0].uri@ != docs[b0].uri@);
    }
    assert(doc_index(rest, uri) is None) by {
        lemma_doc_index(rest, uri);
        if doc_index(rest, uri) is Some {
            let j = doc_index(rest, uri)->0;
            let j0 = if j < i {
                j
            } else {
                j + 1
            };
            assert(rest[j] == docs[j0]);
            assert(j0 != i);
            if j0 < i {
                assert(docs[j0].uri@ != docs[i].uri@);
            } else {
                assert(docs[i].uri@ != docs[j0].uri@);
            }
            assert(false);
        }
    }
    assert forall|u: Seq<u8>| u != uri implies ((#[trigger] doc_index(rest, u)) is Some
        <==> doc_index(docs, u) is Some) by {
        lemma_doc_index(rest, u);
        lemma_doc_index(docs, u);
        if doc_index(docs, u) is Some {
            let j = doc_index(docs, u)->0;
            assert(j != i);
            let j1 = if j < i {
                j
            } else {
                j - 1
            };
            assert(rest[j1] == docs[j]);
            if doc_index(rest, u) is None {
                assert(rest[j1].uri@ != u);
                assert(false);
            }
        }
        if doc_index(rest, u) is Some {
            let j = doc_index(rest, u)->0;
            let j0 = if j < i {
                j
            } else {
                j + 1
            };
            assert(rest[j] == docs[j0]);
            if doc_index(docs, u) is None {
                assert(docs[j0].uri@ != u);
                assert(false);
            }
        }
    }
    assert forall|u: Seq<u8>| u != uri && doc_index(rest, u) is Some implies rest[(
    #[trigger] doc_index(rest, u))->0] == docs[doc_index(docs, u)->0] by {
        lemma_doc_index(rest, u);
        lemma_doc_index(docs, u);
        let j = doc_index(rest, u)->0;
        let j0 = if j < i {
            j
        } else {
            j + 1
        };
        assert(rest[j] == docs[j0]);
        let m = doc_index(docs, u)->0;
        if j0 != m {
            if j0 < m {
                assert(docs[j0].uri@ != docs[m].uri@);
            } else {
                assert(docs[m].uri@ != docs[j0].uri@);
            }
            assert(false);
        }
    }
}

/// At most one spawn version passes the guards at any moment: two deferred
/// tasks with different spawn versions can never both publish, so rapid
/// edits produce at most one published diagnostic set per quiet period — the
/// one spawned by the last edit, whose version the store still holds.
pub proof fn lemma_single_version_publishes(s: DocumentStore, uri: Seq<u8>, v1: int, v2: int)
    requires
        v1 != v2,
    ensures
        !((s.is_open(uri) && s.version_of(uri) == v1) && (s.is_open(uri) && s.version_of(uri)
            == v2)),
{
}

/// A closed document admits no publish at all: once an entry is removed,
/// the wake guard and the publish guard fail for every spawn version, so a
/// task that was still sleeping when the document closed publishes nothing;
/// only the close handler's own synchronous empty publish reaches the
/// editor.
pub proof fn lemma_closed_document_never_publishes(s: DocumentStore, uri: Seq<u8>, v: int)
    requires
        !s.is_open(uri),
    ensures
        !(s.is_open(uri) && s.version_of(uri) == v),
{
}

/// The basename test for configuration files: the path is `jvl.json` itself
/// or ends in `/jvl.json`.
pub open spec fn is_config_path_spec(p: Seq<u8>) -> bool {
    ||| p == "jvl.json".spec_bytes()
    ||| (p.len() >= 9 && p.skip(p.len() - 9) == "/jvl.json".spec_bytes())
}

/// Whether a changed file is a project configuration file, by its name.
pub fn is_config_path(p: &[u8]) -> (r: bool)
    ensures
        r == is_config_path_spec(p@),
{
    let name = crate::bytestr::lit_bytes("jvl.json");
    let suffix = crate::bytestr::lit_bytes("/jvl.json");
    if crate::bytestr::slices_eq(p, name.as_slice()) {
        return true;
    }
    proof {
        reveal_strlit("jvl.json");
        reveal_strlit("/jvl.json");
        let a: &str = "jvl.json";
        let b: &str = "/jvl.json";
        assert(a.is_ascii()) by {
            assert(a@.len() == 8);
        }
        assert(b.is_ascii()) by {
            assert(b@.len() == 9);
        }
        vstd::string::is_ascii_spec_bytes(a);
        vstd::string::is_ascii_spec_bytes(b);
        assert(name@.len() == 8);
        assert(suffix@.len() == 9);
    }
    if p.len() >= 9 {
        let tail = &p[p.len() - 9..p.len()];
        proof {
            assert(tail@ =~= p@.skip(p@.len() - 9));
        }
        if crate::bytestr::slices_eq(tail, suffix.as_slice()) {
            return true;
        }
        return false;
    }
    false
}

/// What a batch of watched-file change notifications invalidates: whether
/// any project configuration file changed (its compiled config must be
/// dropped and the watched schema paths rediscovered), computed over the
/// changed paths alone.
pub fn any_config_changed(changed: &Vec<Vec<u8>>) -> (r: bool)
    ensures
        r == exists|i: int| 0 <= i < changed@.len() && is_config_path_spec((#[trigger] changed@[i])@),
{
    let mut hit = false;
    let mut i: usize = 0;
    while i < changed.len()
        invariant
            i <= changed@.len(),
            hit == exists|j: int| 0 <= j < i && is_config_path_spec((#[trigger] changed@[j])@),
        decreases changed@.len() - i,
    {
        if is_config_path(changed[i].as_slice()) {
            hit = true;
        }
        i = i + 1;
    }
    hit
}

} // verus!
