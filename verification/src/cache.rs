//! The in-memory compiled-schema cache.
//!
//! One slot exists per distinct schema source; a slot is created the first
//! time a source is referenced and holds either the compiled validator (with
//! the raw schema value) or the terminal error that loading or compiling
//! produced. Repeated references reuse the slot and never recompile; only
//! eviction removes a slot. Loading, warnings and cache provenance travel
//! with the caller that paid for the compilation: later callers get an empty
//! warning list and no cache outcome.
//!
//! The surrounding process serializes access to a cache (one compilation per
//! source at a time); this type captures what every caller then observes.

use vstd::prelude::*;
use vstd::string::StringSliceAdditionalSpecFns;

use crate::bytestr::clone_bytes;
use crate::diagnostic::Warning;
use crate::json::JsonValue;
use crate::source::{SchemaSource, SourceModel};

verus! {

/// Describes how a URL schema's bytes were obtained relative to the disk
/// cache.
#[derive(Clone, Copy, Debug, PartialEq, Eq, Structural)]
pub enum CacheOutcome {
    /// Served from a fresh disk-cache entry.
    Hit,
    /// Not cached; fetched from the network and stored.
    Miss,
    /// The cache entry was past its time-to-live; a re-fetch was attempted.
    Stale,
    /// The cache was bypassed: fetched unconditionally, nothing read or
    /// written on disk.
    Bypassed,
}

impl CacheOutcome {
    /// The outcome's short machine-readable name.
    pub fn as_str(&self) -> (r: &'static str)
        ensures
            *self == CacheOutcome::Hit ==> r@ == "hit"@,
            *self == CacheOutcome::Miss ==> r@ == "miss"@,
            *self == CacheOutcome::Stale ==> r@ == "stale"@,
            *self == CacheOutcome::Bypassed ==> r@ == "bypassed"@,
    {
        match self {
            CacheOutcome::Hit => "hit",
            CacheOutcome::Miss => "miss",
            CacheOutcome::Stale => "stale",
            CacheOutcome::Bypassed => "bypassed",
        }
    }
}

/// Why a schema could not be made ready for validation.
#[derive(Debug)]
pub enum SchemaError {
    /// The schema file could not be read.
    FileRead { path: Vec<u8>, reason: Vec<u8> },
    /// The schema bytes were not valid JSON.
    ParseError { path: Vec<u8>, reason: Vec<u8> },
    /// The schema could not be fetched over the network.
    FetchError { url: Vec<u8>, reason: Vec<u8> },
    /// The schema was valid JSON but did not compile.
    CompileError(Vec<u8>),
}

/// The mathematical identity of a schema error.
pub enum ErrorModel {
    FileReadAt { path: Seq<u8>, reason: Seq<u8> },
    ParseAt { path: Seq<u8>, reason: Seq<u8> },
    FetchAt { url: Seq<u8>, reason: Seq<u8> },
    CompileWith { reason: Seq<u8> },
}

impl View for SchemaError {
    type V = ErrorModel;

    open spec fn view(&self) -> ErrorModel {
        match self {
            SchemaError::FileRead { path, reason } => ErrorModel::FileReadAt {
                path: path@,
                reason: reason@,
            },
            SchemaError::ParseError { path, reason } => ErrorModel::ParseAt {
                path: path@,
                reason: reason@,
            },
            SchemaError::FetchError { url, reason } => ErrorModel::FetchAt {
                url: url@,
                reason: reason@,
            },
            SchemaError::CompileError(reason) => ErrorModel::CompileWith { reason: reason@ },
        }
    }
}

/// The reason text of an error model, without the location prefix.
pub open spec fn reason_of(e: ErrorModel) -> Seq<u8> {
    match e {
        ErrorModel::FileReadAt { reason, .. } => reason,
        ErrorModel::ParseAt { reason, .. } => reason,
        ErrorModel::FetchAt { reason, .. } => reason,
        ErrorModel::CompileWith { reason } => reason,
    }
}

impl SchemaError {
    /// The underlying reason without the schema path or URL prefix, for use
    /// where the schema's location is already shown by a source span.
    pub fn reason(&self) -> (r: &Vec<u8>)
        ensures
            r@ == reason_of(self@),
    {
        match self {
            SchemaError::FileRead { reason, .. } => reason,
            SchemaError::ParseError { reason, .. } => reason,
            SchemaError::FetchError { reason, .. } => reason,
            SchemaError::CompileError(reason) => reason,
        }
    }

    /// Copy an error.
    pub fn duplicate(&self) -> (r: SchemaError)
        ensures
            r@ == self@,
    {
        match self {
            SchemaError::FileRead { path, reason } => SchemaError::FileRead {
                path: clone_bytes(path),
                reason: clone_bytes(reason),
            },
            SchemaError::ParseError { path, reason } => SchemaError::ParseError {
                path: clone_bytes(path),
                reason: clone_bytes(reason),
            },
            SchemaError::FetchError { url, reason } => SchemaError::FetchError {
                url: clone_bytes(url),
                reason: clone_bytes(reason),
            },
            SchemaError::CompileError(reason) => SchemaError::CompileError(clone_bytes(reason)),
        }
    }

    /// The full human-readable message, naming the schema's location.
    pub fn message(&self) -> (r: Vec<u8>)
        ensures
            r@ == error_message_spec(self@),
    {
        match self {
            SchemaError::FileRead { path, reason } => {
                let mut out = crate::bytestr::lit_bytes("Failed to read schema file '");
                crate::bytestr::push_bytes(&mut out, path.as_slice());
                crate::bytestr::push_str_bytes(&mut out, "': ");
                crate::bytestr::push_bytes(&mut out, reason.as_slice());
                out
            },
            SchemaError::ParseError { path, reason } => {
                let mut out = crate::bytestr::lit_bytes("Failed to parse schema from '");
                crate::bytestr::push_bytes(&mut out, path.as_slice());
                crate::bytestr::push_str_bytes(&mut out, "': ");
                crate::bytestr::push_bytes(&mut out, reason.as_slice());
                out
            },
            SchemaError::FetchError { url, reason } => {
                let mut out = crate::bytestr::lit_bytes("Failed to fetch schema from '");
                crate::bytestr::push_bytes(&mut out, url.as_slice());
                crate::bytestr::push_str_bytes(&mut out, "': ");
                crate::bytestr::push_bytes(&mut out, reason.as_slice());
                out
            },
            SchemaError::CompileError(reason) => {
                let mut out = crate::bytestr::lit_bytes("Failed to compile schema: ");
                crate::bytestr::push_bytes(&mut out, reason.as_slice());
                out
            },
        }
    }

    /// Whether this error is a compile failure, as opposed to a load
    /// failure (read, parse or fetch).
    pub fn is_compile_error(&self) -> (r: bool)
        ensures
            r == (self@ is CompileWith),
    {
        match self {
            SchemaError::CompileError(_) => true,
            _ => false,
        }
    }
}

/// The full message of an error model.
pub open spec fn error_message_spec(e: ErrorModel) -> Seq<u8> {
    match e {
        ErrorModel::FileReadAt { path, reason } => "Failed to read schema file '".spec_bytes()
            + path + "': ".spec_bytes() + reason,
        ErrorModel::ParseAt { path, reason } => "Failed to parse schema from '".spec_bytes() + path
            + "': ".spec_bytes() + reason,
        ErrorModel::FetchAt { url, reason } => "Failed to fetch schema from '".spec_bytes() + url
            + "': ".spec_bytes() + reason,
        ErrorModel::CompileWith { reason } => "Failed to compile schema: ".spec_bytes() + reason,
    }
}

/// One cache slot: a schema source together with the terminal result of
/// loading and compiling it — a validator handle and the raw schema value,
/// or the error that stopped the pipeline.
pub struct SchemaSlot {
    pub key: SchemaSource,
    pub compiled: Result<crate::engine::ValidatorHandle, SchemaError>,
    pub schema_value: Option<JsonValue>,
}

/// What a caller hands the cache when a source has to be compiled: the
/// outcome of the load-parse-compile pipeline that ran outside the slot,
/// with the warnings and disk-cache provenance it accumulated.
pub struct PreparedSchema {
    pub compiled: Result<crate::engine::ValidatorHandle, SchemaError>,
    pub schema_value: Option<JsonValue>,
    pub warnings: Vec<Warning>,
    pub outcome: Option<CacheOutcome>,
}

/// The index of the first slot with the given key, if any.
pub open spec fn slot_index(slots: Seq<SchemaSlot>, k: SourceModel) -> Option<int>
    decreases slots.len(),
{
    if slots.len() == 0 {
        None
    } else if slots[0].key@ == k {
        Some(0int)
    } else {
        match slot_index(slots.drop_first(), k) {
            Some(i) => Some(i + 1),
            None => None,
        }
    }
}

/// Characterization of `slot_index`: it is the first match.
pub proof fn lemma_slot_index(slots: Seq<SchemaSlot>, k: SourceModel)
    ensures
        match slot_index(slots, k) {
            Some(i) => 0 <= i < slots.len() && slots[i].key@ == k && (forall|j: int|
                0 <= j < i ==> slots[j].key@ != k),
            None => forall|j: int| 0 <= j < slots.len() ==> slots[j].key@ != k,
        },
    decreases slots.len(),
{
    if slots.len() == 0 {
    } else if slots[0].key@ == k {
    } else {
        let tail = slots.drop_first();
        lemma_slot_index(tail, k);
        match slot_index(tail, k) {
            Some(i) => {
                assert(tail[i] == slots[i + 1]);
                assert forall|j: int| 0 <= j < i + 1 implies slots[j].key@ != k by {
                    if j > 0 {
                        assert(tail[j - 1] == slots[j]);
                    }
                }
            },
            None => {
                assert forall|j: int| 0 <= j < slots.len() implies slots[j].key@ != k by {
                    if j > 0 {
                        assert(tail[j - 1] == slots[j]);
                    }
                }
            },
        }
    }
}

/// The process-wide cache of compiled schema validators, keyed by schema
/// source.
pub struct SchemaCache {
    pub slots: Vec<SchemaSlot>,
}

impl SchemaCache {
    /// Slot keys are pairwise distinct: at most one compiled validator per
    /// source exists at any time.
    pub open spec fn wf(self) -> bool {
        forall|i: int, j: int|
            0 <= i < j < self.slots@.len() ==> #[trigger] self.slots@[i].key@
                != #[trigger] self.slots@[j].key@
    }

    /// Whether a source has a slot.
    pub open spec fn has(self, k: SourceModel) -> bool {
        slot_index(self.slots@, k) is Some
    }

    /// An empty cache.
    pub fn new() -> (r: SchemaCache)
        ensures
            r.wf(),
            r.slots@.len() == 0,
    {
        SchemaCache { slots: Vec::new() }
    }

    /// Find the slot holding a source.
    fn find(&self, source: &SchemaSource) -> (r: Option<usize>)
        ensures
            match r {
                Some(i) => slot_index(self.slots@, source@) == Some(i as int) && (i as int)
                    < self.slots@.len() && self.slots@[i as int].key@ == source@,
                None => slot_index(self.slots@, source@) is None,
            },
    {
        proof {
            lemma_slot_index(self.slots@, source@);
        }
        let mut i: usize = 0;
        while i < self.slots.len()
            invariant
                i <= self.slots@.len(),
                forall|j: int| 0 <= j < i ==> self.slots@[j].key@ != source@,
                match slot_index(self.slots@, source@) {
                    Some(k) => 0 <= k < self.slots@.len() && self.slots@[k].key@ == source@ && (
                    forall|j: int| 0 <= j < k ==> self.slots@[j].key@ != source@),
                    None => forall|j: int|
                        0 <= j < self.slots@.len() ==> self.slots@[j].key@ != source@,
                },
            decreases self.slots@.len() - i,
        {
            if self.slots[i].key.same(source) {
                return Some(i);
            }
            i = i + 1;
        }
        None
    }

    /// Whether a source is already cached (compiled or failed terminally).
    pub fn contains(&self, source: &SchemaSource) -> (r: bool)
        ensures
            r == self.has(source@),
    {
        self.find(source).is_some()
    }

    /// Remove the slot of a source, forcing the next reference to recompile
    /// from scratch. Returns whether anything was present; every other slot
    /// stays untouched.
    pub fn evict(&mut self, source: &SchemaSource) -> (r: bool)
        requires
            old(self).wf(),
        ensures
            final(self).wf(),
            r == old(self).has(source@),
            !final(self).has(source@),
            forall|k: SourceModel|
                k != source@ ==> (#[trigger] final(self).has(k) == old(self).has(k)),
            forall|k: SourceModel| #[trigger]
                final(self).has(k) ==> slot_model(*final(self), k) == slot_model(*old(self), k),
    {
        proof {
            lemma_slot_index(self.slots@, source@);
        }
        match self.find(source) {
            Some(i) => {
                let ghost pre = self.slots@;
                let _ = self.slots.remove(i);
                proof {
                    lemma_remove_preserves(pre, i as int, source@);
                }
                true
            },
            None => false,
        }
    }

    /// The schema sources that are local files, for registering file
    /// watchers: one path per file-backed slot, in slot order.
    pub fn cached_file_paths(&self) -> (r: Vec<Vec<u8>>)
        ensures
            r@.map_values(|v: Vec<u8>| v@) == file_keys(self.slots@),
    {
        let mut out: Vec<Vec<u8>> = Vec::new();
        let mut i: usize = 0;
        proof {
            assert(out@.map_values(|v: Vec<u8>| v@) =~= file_keys(self.slots@.take(0)));
        }
        while i < self.slots.len()
            invariant
                i <= self.slots@.len(),
                out@.map_values(|v: Vec<u8>| v@) == file_keys(self.slots@.take(i as int)),
            decreases self.slots@.len() - i,
        {
            let ghost pre = out@;
            proof {
                assert(self.slots@.take(i + 1).drop_last() =~= self.slots@.take(i as int));
                assert(self.slots@.take(i + 1).last() == self.slots@[i as int]);
            }
            match &self.slots[i].key {
                SchemaSource::File(p) => {
                    out.push(clone_bytes(p));
                    proof {
                        assert(out@.map_values(|v: Vec<u8>| v@) =~= pre.map_values(
                            |v: Vec<u8>| v@,
                        ).push(self.slots@[i as int].key->File_0@));
                    }
                },
                SchemaSource::Url(_) => {},
            }
            i = i + 1;
        }
        proof {
            assert(self.slots@.take(self.slots@.len() as int) =~= self.slots@);
        }
        out
    }

    /// The raw schema value of an already-compiled source, when its pipeline
    /// got far enough to parse one.
    pub fn get_schema_value(&self, source: &SchemaSource) -> (r: Option<&JsonValue>)
        ensures
            match slot_index(self.slots@, source@) {
                Some(i) => match (r, self.slots@[i].schema_value) {
                    (Some(v), Some(s)) => *v == s,
                    (None, None) => true,
                    _ => false,
                },
                None => r is None,
            },
    {
        match self.find(source) {
            Some(i) => {
                match &self.slots[i].schema_value {
                    Some(v) => Some(v),
                    None => None,
                }
            },
            None => None,
        }
    }

    /// Reuse or install the slot for a source.
    ///
    /// When the source is already cached, nothing changes: the stored result
    /// is returned with an empty warning list and no cache outcome, since no
    /// load ran on this caller's behalf. When it is not cached, the caller
    /// must supply the prepared pipeline outcome; it is installed as the
    /// slot — success and failure alike are terminal until eviction — and
    /// this caller alone receives the accumulated warnings and the true
    /// cache outcome.
    pub fn get_or_compile<'a>(
        &'a mut self,
        source: &SchemaSource,
        prepared: Option<PreparedSchema>,
    ) -> (r: (
        Result<&'a crate::engine::ValidatorHandle, SchemaError>,
        Vec<Warning>,
        Option<CacheOutcome>,
    ))
        requires
            old(self).wf(),
            old(self).has(source@) || prepared is Some,
        ensures
            final(self).wf(),
            final(self).has(source@),
            forall|k: SourceModel|
                k != source@ ==> (#[trigger] final(self).has(k) == old(self).has(k)),
            old(self).has(source@) ==> final(self).slots@ == old(self).slots@ && r.1@.len() == 0
                && r.2 is None,
            !old(self).has(source@) ==> {
                let p = prepared->0;
                &&& slot_index(final(self).slots@, source@) == Some(old(self).slots@.len() as int)
                &&& final(self).slots@.len() == old(self).slots@.len() + 1
                &&& final(self).slots@.last().key@ == source@
                &&& final(self).slots@.last().compiled == p.compiled
                &&& final(self).slots@.last().schema_value == p.schema_value
                &&& final(self).slots@.take(old(self).slots@.len() as int) == old(self).slots@
                &&& r.1 == p.warnings
                &&& r.2 == p.outcome
            },
            ({
                let i = slot_index(final(self).slots@, source@)->0;
                match (r.0, final(self).slots@[i].compiled) {
                    (Ok(v), Ok(stored)) => *v == stored,
                    (Err(e), Err(stored)) => e@ == stored@,
                    _ => false,
                }
            }),
    {
        proof {
            lemma_slot_index(self.slots@, source@);
        }
        let found = self.find(source);
        match found {
            Some(i) => {
                match &self.slots[i].compiled {
                    Ok(v) => (Ok(v), Vec::new(), None),
                    Err(e) => (Err(e.duplicate()), Vec::new(), None),
                }
            },
            None => {
                let p = match prepared {
                    Some(p) => p,
                    None => {
                        proof {
                            assert(false);
                        }
                        unreached()
                    },
                };
                let ghost pre = self.slots@;
                let slot = SchemaSlot {
                    key: source.duplicate(),
                    compiled: p.compiled,
                    schema_value: p.schema_value,
                };
                self.slots.push(slot);
                proof {
                    lemma_push_preserves(pre, self.slots@.last(), source@);
                    assert(self.slots@.take(pre.len() as int) =~= pre);
                }
                let n = self.slots.len();
                match &self.slots[n - 1].compiled {
                    Ok(v) => (Ok(v), p.warnings, p.outcome),
                    Err(e) => (Err(e.duplicate()), p.warnings, p.outcome),
                }
            },
        }
    }
}

impl SchemaCache {
    /// Reuse or install the slot for a source and hand back the raw schema
    /// value it holds: the combination of
    /// [`get_or_compile`](Self::get_or_compile) and
    /// [`get_schema_value`](Self::get_schema_value) in one step.
    pub fn get_or_compile_with_value<'a>(
        &'a mut self,
        source: &SchemaSource,
        prepared: Option<PreparedSchema>,
    ) -> (r: Result<Option<&'a JsonValue>, SchemaError>)
        requires
            old(self).wf(),
            old(self).has(source@) || prepared is Some,
        ensures
            final(self).wf(),
            final(self).has(source@),
            ({
                let slot = slot_model(*final(self), source@);
                match r {
                    Err(e) => slot.compiled matches Err(stored) && e@ == stored@,
                    Ok(v) => slot.compiled is Ok && (match (v, slot.schema_value) {
                        (Some(v), Some(s)) => *v == s,
                        (None, None) => true,
                        _ => false,
                    }),
                }
            }),
    {
        {
            let (compiled, _, _) = self.get_or_compile(source, prepared);
            match compiled {
                Err(e) => {
                    return Err(e);
                },
                Ok(_) => {},
            }
        }
        proof {
            lemma_slot_index(self.slots@, source@);
        }
        Ok(self.get_schema_value(source))
    }
}

/// The observable content of the slot holding key `k`: whether compilation
/// succeeded, and the stored results.
pub open spec fn slot_model(c: SchemaCache, k: SourceModel) -> SchemaSlot {
    c.slots@[slot_index(c.slots@, k)->0]
}

/// The file paths among a slot sequence's keys, in order.
pub open spec fn file_keys(slots: Seq<SchemaSlot>) -> Seq<Seq<u8>>
    decreases slots.len(),
{
    if slots.len() == 0 {
        Seq::empty()
    } else {
        let pre = file_keys(slots.drop_last());
        match slots.last().key@ {
            SourceModel::FileKey(p) => pre.push(p),
            SourceModel::UrlKey(_) => pre,
        }
    }
}

/// Removing the slot at the key's own index removes exactly that key: every
/// other key keeps its presence and its slot content.
proof fn lemma_remove_preserves(slots: Seq<SchemaSlot>, i: int, k: SourceModel)
    requires
        0 <= i < slots.len(),
        slots[i].key@ == k,
        forall|a: int, b: int|
            0 <= a < b < slots.len() ==> #[trigger] slots[a].key@ != #[trigger] slots[b].key@,
    ensures
        ({
            let rest = slots.remove(i);
            &&& forall|a: int, b: int|
                0 <= a < b < rest.len() ==> #[trigger] rest[a].key@ != #[trigger] rest[b].key@
            &&& slot_index(rest, k) is None
            &&& forall|k2: SourceModel|
                k2 != k ==> ((#[trigger] slot_index(rest, k2)) is Some <==> slot_index(slots, k2)
                    is Some)
            &&& forall|k2: SourceModel|
                k2 != k && slot_index(rest, k2) is Some ==> rest[(#[trigger] slot_index(
                    rest,
                    k2,
                ))->0] == slots[slot_index(slots, k2)->0]
        }),
{
    let rest = slots.remove(i);
    assert forall|a: int, b: int| 0 <= a < b < rest.len() implies #[trigger] rest[a].key@
        != #[trigger] rest[b].key@ by {
        let a0 = if a < i {
            a
        } else {
            a + 1
        };
        let b0 = if b < i {
            b
        } else {
            b + 1
        };
        assert(rest[a] == slots[a0]);
        assert(rest[b] == slots[b0]);
        assert(slots[a0].key@ != slots[b0].key@);
    }
    assert(slot_index(rest, k) is None) by {
        lemma_slot_index(rest, k);
        if slot_index(rest, k) is Some {
            let j = slot_index(rest, k)->0;
            let j0 = if j < i {
                j
            } else {
                j + 1
            };
            assert(rest[j] == slots[j0]);
            assert(j0 != i);
            if j0 < i {
                assert(slots[j0].key@ != slots[i].key@);
            } else {
                assert(slots[i].key@ != slots[j0].key@);
            }
            assert(false);
        }
    }
    assert forall|k2: SourceModel| k2 != k implies ((#[trigger] slot_index(rest, k2)) is Some
        <==> slot_index(slots, k2) is Some) by {
        lemma_slot_index(rest, k2);
        lemma_slot_index(slots, k2);
        if slot_index(slots, k2) is Some {
            let j = slot_index(slots, k2)->0;
            assert(j != i);
            let j1 = if j < i {
                j
            } else {
                j - 1
            };
            assert(rest[j1] == slots[j]);
            if slot_index(rest, k2) is None {
                assert(rest[j1].key@ != k2);
                assert(false);
            }
        }
        if slot_index(rest, k2) is Some {
            let j = slot_index(rest, k2)->0;
            let j0 = if j < i {
                j
            } else {
                j + 1
            };
            assert(rest[j] == slots[j0]);
            if slot_index(slots, k2) is None {
                assert(slots[j0].key@ != k2);
                assert(false);
            }
        }
    }
    assert forall|k2: SourceModel| k2 != k && slot_index(rest, k2) is Some implies rest[(
    #[trigger] slot_index(rest, k2))->0] == slots[slot_index(slots, k2)->0] by {
        lemma_slot_index(rest, k2);
        lemma_slot_index(slots, k2);
        let j = slot_index(rest, k2)->0;
        let j0 = if j < i {
            j
        } else {
            j + 1
        };
        assert(rest[j] == slots[j0]);
        let m = slot_index(slots, k2)->0;
        if j0 != m {
            if j0 < m {
                assert(slots[j0].key@ != slots[m].key@);
            } else {
                assert(slots[m].key@ != slots[j0].key@);
            }
            assert(false);
        }
    }
}

/// Whether a key appears in a slot sequence.
pub open spec fn key_present(slots: Seq<SchemaSlot>, k: SourceModel) -> bool {
    slot_index(slots, k) is Some
}

/// Pushing a slot with a fresh key keeps the keys distinct and every other
/// key's presence unchanged.
proof fn lemma_push_preserves(slots: Seq<SchemaSlot>, new: SchemaSlot, k: SourceModel)
    requires
        new.key@ == k,
        slot_index(slots, k) is None,
        forall|a: int, b: int|
            0 <= a < b < slots.len() ==> #[trigger] slots[a].key@ != #[trigger] slots[b].key@,
    ensures
        ({
            let ext = slots.push(new);
            &&& forall|a: int, b: int|
                0 <= a < b < ext.len() ==> #[trigger] ext[a].key@ != #[trigger] ext[b].key@
            &&& slot_index(ext, k) == Some(slots.len() as int)
            &&& forall|k2: SourceModel|
                k2 != k ==> ((#[trigger] slot_index(ext, k2)) is Some <==> slot_index(slots, k2)
                    is Some)
        }),
{
    let ext = slots.push(new);
    lemma_slot_index(slots, k);
    assert forall|a: int, b: int| 0 <= a < b < ext.len() implies #[trigger] ext[a].key@
        != #[trigger] ext[b].key@ by {
        if b < slots.len() {
            assert(ext[a] == slots[a] && ext[b] == slots[b]);
        } else {
            assert(ext[b] == new);
            assert(ext[a] == slots[a]);
            assert(slots[a].key@ != k);
        }
    }
    lemma_slot_index(ext, k);
    if slot_index(ext, k) is None {
        assert(ext[slots.len() as int].key@ == k);
        assert(false);
    }
    let j = slot_index(ext, k)->0;
    if j < slots.len() {
        assert(ext[j] == slots[j]);
        assert(false);
    }
    assert forall|k2: SourceModel| k2 != k implies ((#[trigger] slot_index(ext, k2)) is Some
        <==> slot_index(slots, k2) is Some) by {
        lemma_slot_index(ext, k2);
        lemma_slot_index(slots, k2);
        if slot_index(slots, k2) is Some {
            let m = slot_index(slots, k2)->0;
            assert(ext[m] == slots[m]);
            if slot_index(ext, k2) is None {
                assert(ext[m].key@ != k2);
                assert(false);
            }
        }
        if slot_index(ext, k2) is Some {
            let m = slot_index(ext, k2)->0;
            if m < slots.len() {
                assert(ext[m] == slots[m]);
                if slot_index(slots, k2) is None {
                    assert(slots[m].key@ != k2);
                    assert(false);
                }
            } else {
                assert(ext[m] == new);
                assert(false);
            }
        }
    }
}

/// Two spellings of the same file path that normalize alike are one cache
/// key: the cache cannot hold two slots for them, and a second reference
/// reuses the first slot.
pub proof fn lemma_normalized_paths_share_slot(
    c: SchemaCache,
    p1: Seq<u8>,
    p2: Seq<u8>,
)
    requires
        crate::source::normalize_spec(p1) == crate::source::normalize_spec(p2),
    ensures
        SourceModel::FileKey(crate::source::normalize_spec(p1)) == SourceModel::FileKey(
            crate::source::normalize_spec(p2),
        ),
        c.has(SourceModel::FileKey(crate::source::normalize_spec(p1))) == c.has(
            SourceModel::FileKey(crate::source::normalize_spec(p2)),
        ),
{
}

} // verus!
