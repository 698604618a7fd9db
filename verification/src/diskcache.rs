//! The decision protocol of the persistent schema cache.
//!
//! Reading and writing the cache directory is I/O and lives outside the
//! library; what is decided here is everything else: when the cache may be
//! consulted, when an entry counts as fresh, what is served for every
//! combination of cache state and fetch outcome, which outcome tag and
//! warnings accompany it, and under which file names an entry is stored.

use vstd::prelude::*;
use vstd::multiset::Multiset;
use vstd::string::StringSliceAdditionalSpecFns;

use crate::bytestr::{clone_bytes, push_bytes, push_str_bytes};
use crate::cache::{CacheOutcome, SchemaError};
use crate::diagnostic::Warning;

verus! {

/// How long a cached schema stays fresh: 24 hours, in seconds.
pub const CACHE_TTL_SECS: i64 = 24 * 60 * 60;

/// Whether an entry fetched at `fetched_at` is still fresh at `now` (both in
/// seconds since the epoch).
pub open spec fn within_ttl(fetched_at: i64, now: i64) -> bool {
    now - fetched_at < CACHE_TTL_SECS
}

/// Whether a cache entry's fetch time is within the time-to-live.
pub fn is_within_ttl(fetched_at: i64, now: i64) -> (r: bool)
    ensures
        r == within_ttl(fetched_at, now),
{
    let diff: i128 = (now as i128) - (fetched_at as i128);
    diff < (CACHE_TTL_SECS as i128)
}

/// What a URL load will do, decided before any network or disk activity.
#[derive(Clone, Copy, Debug, PartialEq, Eq, Structural)]
pub enum LoadPlan {
    /// The cache is bypassed: fetch unconditionally, read and write nothing.
    NetworkOnly,
    /// A fresh entry exists: serve it, no fetch.
    ServeCached,
    /// A stale entry exists: attempt a re-fetch, keep the entry as fallback.
    Refresh,
    /// No entry exists: fetch and store.
    FetchAndStore,
}

/// The plan for loading a URL schema: bypass goes straight to the network; a
/// present entry is served when fresh and refreshed when stale; an absent
/// entry is fetched and stored.
pub open spec fn plan_spec(bypass: bool, entry_present: bool, entry_fresh: bool) -> LoadPlan {
    if bypass {
        LoadPlan::NetworkOnly
    } else if entry_present && entry_fresh {
        LoadPlan::ServeCached
    } else if entry_present {
        LoadPlan::Refresh
    } else {
        LoadPlan::FetchAndStore
    }
}

/// Decide what a URL load will do. `entry_fresh` is only meaningful when an
/// entry is present.
pub fn plan_url_load(bypass: bool, entry_present: bool, entry_fresh: bool) -> (r: LoadPlan)
    ensures
        r == plan_spec(bypass, entry_present, entry_fresh),
{
    if bypass {
        LoadPlan::NetworkOnly
    } else if entry_present && entry_fresh {
        LoadPlan::ServeCached
    } else if entry_present {
        LoadPlan::Refresh
    } else {
        LoadPlan::FetchAndStore
    }
}

/// What a URL load concluded: the schema bytes to use, the outcome tag,
/// whether a stale-fallback warning accompanies them, and whether the bytes
/// must be written back to the cache.
pub struct LoadOutcome {
    pub content: Vec<u8>,
    pub outcome: CacheOutcome,
    pub warnings: Vec<Warning>,
    pub store: bool,
}

/// The mathematical form of a load conclusion.
pub enum LoadModel {
    Served { content: Seq<u8>, outcome: CacheOutcome, stale_warning: bool, store: bool },
    Failed,
}

/// What every plan concludes, given the cached bytes (when an entry exists)
/// and the fetch result (when a fetch ran): bypass and cache-miss loads
/// serve the fetched bytes or fail; a fresh entry is served verbatim as a
/// hit; a stale entry is replaced by a successful re-fetch, or served as a
/// stale fallback with a warning when the re-fetch failed.
pub open spec fn conclude_spec(
    plan: LoadPlan,
    cached: Option<Seq<u8>>,
    fetched: Option<Option<Seq<u8>>>,
) -> LoadModel {
    match plan {
        LoadPlan::NetworkOnly => match fetched->0 {
            Some(c) => LoadModel::Served {
                content: c,
                outcome: CacheOutcome::Bypassed,
                stale_warning: false,
                store: false,
            },
            None => LoadModel::Failed,
        },
        LoadPlan::ServeCached => LoadModel::Served {
            content: cached->0,
            outcome: CacheOutcome::Hit,
            stale_warning: false,
            store: false,
        },
        LoadPlan::Refresh => match fetched->0 {
            Some(c) => LoadModel::Served {
                content: c,
                outcome: CacheOutcome::Stale,
                stale_warning: false,
                store: true,
            },
            None => LoadModel::Served {
                content: cached->0,
                outcome: CacheOutcome::Stale,
                stale_warning: true,
                store: false,
            },
        },
        LoadPlan::FetchAndStore => match fetched->0 {
            Some(c) => LoadModel::Served {
                content: c,
                outcome: CacheOutcome::Miss,
                stale_warning: false,
                store: true,
            },
            None => LoadModel::Failed,
        },
    }
}

/// The warning that accompanies serving stale content after a failed
/// re-fetch.
pub open spec fn stale_warning_spec(url: Seq<u8>) -> (Seq<u8>, Seq<u8>) {
    (
        "cache(stale)".spec_bytes(),
        "Using stale cached schema for ".spec_bytes() + url + " (re-fetch failed)".spec_bytes(),
    )
}

/// Carry out a URL load plan, given the cached bytes (for plans that may
/// serve them) and the fetch result (for plans that fetched). The view of
/// the result follows `conclude_spec`; a failed load reports the fetch
/// error.
pub fn conclude_url_load(
    plan: LoadPlan,
    url: &[u8],
    cached: Option<Vec<u8>>,
    fetched: Option<Result<Vec<u8>, SchemaError>>,
) -> (r: Result<LoadOutcome, SchemaError>)
    requires
        plan == LoadPlan::ServeCached || plan == LoadPlan::Refresh ==> cached is Some,
        plan != LoadPlan::ServeCached ==> fetched is Some,
    ensures
        ({
            let fetched_model = match fetched {
                Some(Ok(c)) => Some(Some(c@)),
                Some(Err(_)) => Some(None::<Seq<u8>>),
                None => None,
            };
            let cached_model = match cached {
                Some(c) => Some(c@),
                None => None,
            };
            match (r, conclude_spec(plan, cached_model, fetched_model)) {
                (
                    Ok(out),
                    LoadModel::Served { content, outcome, stale_warning, store },
                ) => out.content@ == content && out.outcome == outcome && out.store == store && (
                if stale_warning {
                    out.warnings@.len() == 1 && out.warnings@[0].code@ == stale_warning_spec(
                        url@,
                    ).0 && out.warnings@[0].message@ == stale_warning_spec(url@).1
                } else {
                    out.warnings@.len() == 0
                }),
                (Err(e), LoadModel::Failed) => match fetched {
                    Some(Err(f)) => e@ == f@,
                    _ => false,
                },
                _ => false,
            }
        }),
{
    match plan {
        LoadPlan::ServeCached => {
            let c = match cached {
                Some(c) => c,
                None => unreached(),
            };
            Ok(
                LoadOutcome {
                    content: c,
                    outcome: CacheOutcome::Hit,
                    warnings: Vec::new(),
                    store: false,
                },
            )
        },
        LoadPlan::NetworkOnly => {
            match fetched {
                Some(Ok(c)) => Ok(
                    LoadOutcome {
                        content: c,
                        outcome: CacheOutcome::Bypassed,
                        warnings: Vec::new(),
                        store: false,
                    },
                ),
                Some(Err(e)) => Err(e),
                None => unreached(),
            }
        },
        LoadPlan::FetchAndStore => {
            match fetched {
                Some(Ok(c)) => Ok(
                    LoadOutcome {
                        content: c,
                        outcome: CacheOutcome::Miss,
                        warnings: Vec::new(),
                        store: true,
                    },
                ),
                Some(Err(e)) => Err(e),
                None => unreached(),
            }
        },
        LoadPlan::Refresh => {
            match fetched {
                Some(Ok(c)) => Ok(
                    LoadOutcome {
                        content: c,
                        outcome: CacheOutcome::Stale,
                        warnings: Vec::new(),
                        store: true,
                    },
                ),
                Some(Err(_)) => {
                    let c = match cached {
                        Some(c) => c,
                        None => unreached(),
                    };
                    let mut message = crate::bytestr::lit_bytes("Using stale cached schema for ");
                    push_bytes(&mut message, url);
                    push_str_bytes(&mut message, " (re-fetch failed)");
                    let warning = Warning { code: crate::bytestr::lit_bytes("cache(stale)"), message };
                    let mut warnings: Vec<Warning> = Vec::new();
                    warnings.push(warning);
                    Ok(
                        LoadOutcome {
                            content: c,
                            outcome: CacheOutcome::Stale,
                            warnings,
                            store: false,
                        },
                    )
                },
                None => unreached(),
            }
        },
    }
}

/// A warm cache is invisible to its user except for the outcome tag: within
/// the time-to-live and without bypass, a load plans a cache hit and serves
/// exactly the cached bytes back, fetching nothing, writing nothing and
/// warning about nothing. A second validation pass over an unchanged
/// document therefore sees the same schema bytes with a `Hit` outcome.
pub proof fn lemma_warm_cache_serves_verbatim(
    content: Seq<u8>,
    fetched_at: i64,
    now: i64,
    fetched: Option<Option<Seq<u8>>>,
)
    requires
        within_ttl(fetched_at, now),
    ensures
        plan_spec(false, true, within_ttl(fetched_at, now)) == LoadPlan::ServeCached,
        conclude_spec(LoadPlan::ServeCached, Some(content), fetched) == (LoadModel::Served {
            content,
            outcome: CacheOutcome::Hit,
            stale_warning: false,
            store: false,
        }),
{
}

/// A bypassed load never serves cached bytes and never asks to store any:
/// whatever the cache held, the conclusion of a bypass plan depends on the
/// fetch alone.
pub proof fn lemma_bypass_never_touches_cache(
    cached: Option<Seq<u8>>,
    fetched: Option<Option<Seq<u8>>>,
)
    ensures
        plan_spec(true, cached is Some, true) == LoadPlan::NetworkOnly,
        plan_spec(true, cached is Some, false) == LoadPlan::NetworkOnly,
        conclude_spec(LoadPlan::NetworkOnly, cached, fetched) == conclude_spec(
            LoadPlan::NetworkOnly,
            None,
            fetched,
        ),
        conclude_spec(LoadPlan::NetworkOnly, cached, fetched) matches LoadModel::Served {
            store,
            ..
        } ==> !store,
{
}

/// The SHA-256 digest of a byte sequence: thirty-two bytes, a function of
/// the input alone.
pub uninterp spec fn sha256_of(data: Seq<u8>) -> Seq<u8>;

/// Relies on sha2::Sha256: the digest is thirty-two bytes and a function of
/// the input bytes alone.
#[verifier::external_body]
fn sha256_digest(data: &[u8]) -> (r: Vec<u8>)
    ensures
        r@ == sha256_of(data@),
        r@.len() == 32,
{
    <sha2::Sha256 as sha2::Digest>::digest(data).to_vec()
}

/// The lowercase hexadecimal digit of a value below sixteen.
pub open spec fn hex_digit(n: u8) -> u8 {
    if n < 10 {
        (0x30 + n) as u8
    } else {
        (0x57 + n) as u8
    }
}

/// The lowercase hexadecimal form of a byte sequence: two digits per byte,
/// high nibble first.
pub open spec fn hex_lower(s: Seq<u8>) -> Seq<u8> {
    Seq::new(
        2 * s.len(),
        |i: int|
            if i % 2 == 0 {
                hex_digit(s[i / 2] / 16)
            } else {
                hex_digit(s[i / 2] % 16)
            },
    )
}

/// Encode bytes as lowercase hexadecimal, two digits per byte.
fn hex_encode(bytes: &[u8]) -> (r: Vec<u8>)
    requires
        bytes@.len() * 2 <= usize::MAX,
    ensures
        r@ == hex_lower(bytes@),
{
    let mut out: Vec<u8> = Vec::new();
    let mut i: usize = 0;
    while i < bytes.len()
        invariant
            bytes@.len() * 2 <= usize::MAX,
            i <= bytes@.len(),
            out@ == hex_lower(bytes@.take(i as int)),
        decreases bytes@.len() - i,
    {
        let b = bytes[i];
        let hi = b / 16;
        let lo = b % 16;
        out.push(if hi < 10 { 0x30 + hi } else { 0x57 + hi });
        out.push(if lo < 10 { 0x30 + lo } else { 0x57 + lo });
        i += 1;
        proof {
            assert(out@ =~= hex_lower(bytes@.take(i as int)));
        }
    }
    proof {
        assert(bytes@.take(bytes@.len() as int) =~= bytes@);
    }
    out
}

/// What a URL's digest names on disk: the lowercase hexadecimal form of its
/// SHA-256 digest.
pub open spec fn sha256_hex_of(data: Seq<u8>) -> Seq<u8> {
    hex_lower(sha256_of(data))
}

/// The cache key of a URL: the hexadecimal digest of its bytes.
pub fn url_hash(url: &[u8]) -> (r: Vec<u8>)
    ensures
        r@ == sha256_hex_of(url@),
        r@.len() == 64,
{
    let digest = sha256_digest(url);
    hex_encode(digest.as_slice())
}

/// The file names a cached URL schema is stored under, relative to the
/// cache directory: the content file and its metadata sidecar, both named
/// by the URL's digest.
pub fn cache_entry_names(url: &[u8]) -> (r: (Vec<u8>, Vec<u8>))
    ensures
        r.0@ == sha256_hex_of(url@) + ".json".spec_bytes(),
        r.1@ == sha256_hex_of(url@) + ".meta".spec_bytes(),
{
    let hash = url_hash(url);
    let mut content_name = clone_bytes(&hash);
    push_str_bytes(&mut content_name, ".json");
    let mut meta_name = hash;
    push_str_bytes(&mut meta_name, ".meta");
    (content_name, meta_name)
}

/// One cached schema as listed to the user.
#[derive(Debug)]
pub struct CachedSchemaInfo {
    /// The original URL of the cached schema.
    pub url: Vec<u8>,
    /// Timestamp text of when the schema was fetched.
    pub fetched_at: Vec<u8>,
    /// Size of the cached content in bytes.
    pub size: u64,
}

/// The result of listing the cache: the readable entries, and how many
/// metadata files could not be read or parsed.
#[derive(Debug)]
pub struct CacheListResult {
    pub entries: Vec<CachedSchemaInfo>,
    pub skipped: usize,
}

/// The result of clearing the cache.
#[derive(Debug, PartialEq, Eq, Structural)]
pub enum CacheClearResult {
    /// The cache directory was removed.
    Cleared,
    /// There was nothing to remove.
    AlreadyEmpty,
}

/// How many entries of a listing could not be read.
pub open spec fn count_unreadable(parsed: Seq<Option<CachedSchemaInfo>>) -> int
    decreases parsed.len(),
{
    if parsed.len() == 0 {
        0
    } else {
        count_unreadable(parsed.drop_last()) + if parsed.last() is None {
            1int
        } else {
            0int
        }
    }
}

/// The readable entries of a listing, in their original order.
pub open spec fn readable_entries(parsed: Seq<Option<CachedSchemaInfo>>) -> Seq<CachedSchemaInfo>
    decreases parsed.len(),
{
    if parsed.len() == 0 {
        Seq::empty()
    } else {
        let pre = readable_entries(parsed.drop_last());
        match parsed.last() {
            Some(e) => pre.push(e),
            None => pre,
        }
    }
}

/// Gather a cache listing from per-entry read results: every readable entry
/// is kept in order, and every corrupt or unreadable metadata file is
/// counted as skipped — never silently dropped and never fatal.
pub fn collect_cache_list(parsed: Vec<Option<CachedSchemaInfo>>) -> (r: CacheListResult)
    ensures
        r.entries@ == readable_entries(parsed@),
        r.skipped as int == count_unreadable(parsed@),
{
    let mut entries: Vec<CachedSchemaInfo> = Vec::new();
    let mut skipped: usize = 0;
    let mut rest = parsed;
    let ghost all = rest@;
    let total = rest.len();
    let mut i: usize = 0;
    proof {
        assert(entries@ =~= readable_entries(all.take(0)));
        assert(rest@ =~= all.skip(0));
    }
    while rest.len() > 0
        invariant
            all.len() == total,
            i + rest@.len() == all.len(),
            rest@ == all.skip(i as int),
            entries@ == readable_entries(all.take(i as int)),
            skipped as int == count_unreadable(all.take(i as int)),
            skipped <= i,
        decreases rest@.len(),
    {
        proof {
            assert(all.skip(i as int)[0] == all[i as int]);
            assert(all.take(i + 1).drop_last() =~= all.take(i as int));
            assert(all.take(i + 1).last() == all[i as int]);
        }
        let ghost pre_rest = rest@;
        let e = rest.remove(0);
        proof {
            assert(rest@ =~= all.skip(i + 1));
        }
        match e {
            Some(e) => {
                entries.push(e);
            },
            None => {
                skipped = skipped + 1;
            },
        }
        i = i + 1;
    }
    proof {
        assert(all.take(all.len() as int) =~= all);
    }
    CacheListResult { entries, skipped }
}


/// Bytewise lexicographic order on text.
pub open spec fn bytes_le(a: Seq<u8>, b: Seq<u8>) -> bool
    decreases a.len(),
{
    if a.len() == 0 {
        true
    } else if b.len() == 0 {
        false
    } else if a[0] < b[0] {
        true
    } else if a[0] > b[0] {
        false
    } else {
        bytes_le(a.drop_first(), b.drop_first())
    }
}

/// The order is total: of any two texts, one is at most the other.
pub proof fn lemma_bytes_le_total(a: Seq<u8>, b: Seq<u8>)
    ensures
        bytes_le(a, b) || bytes_le(b, a),
    decreases a.len(),
{
    if a.len() > 0 && b.len() > 0 && a[0] == b[0] {
        lemma_bytes_le_total(a.drop_first(), b.drop_first());
    }
}

/// The order is transitive.
pub proof fn lemma_bytes_le_trans(a: Seq<u8>, b: Seq<u8>, c: Seq<u8>)
    requires
        bytes_le(a, b),
        bytes_le(b, c),
    ensures
        bytes_le(a, c),
    decreases a.len(),
{
    if a.len() > 0 && b.len() > 0 && c.len() > 0 && a[0] == b[0] && b[0] == c[0] {
        lemma_bytes_le_trans(a.drop_first(), b.drop_first(), c.drop_first());
    }
}

/// Whether `a` sorts at or before `b`.
pub fn url_le(a: &Vec<u8>, b: &Vec<u8>) -> (r: bool)
    ensures
        r == bytes_le(a@, b@),
{
    let mut i: usize = 0;
    proof {
        assert(a@.skip(0) =~= a@);
        assert(b@.skip(0) =~= b@);
    }
    loop
        invariant
            i <= a@.len(),
            i <= b@.len(),
            bytes_le(a@, b@) == bytes_le(a@.skip(i as int), b@.skip(i as int)),
        decreases a@.len() - i,
    {
        if i >= a.len() {
            return true;
        }
        if i >= b.len() {
            return false;
        }
        proof {
            assert(a@.skip(i as int)[0] == a@[i as int]);
            assert(b@.skip(i as int)[0] == b@[i as int]);
            assert(a@.skip(i as int).drop_first() =~= a@.skip(i + 1));
            assert(b@.skip(i as int).drop_first() =~= b@.skip(i + 1));
        }
        if a[i] < b[i] {
            return true;
        }
        if a[i] > b[i] {
            return false;
        }
        i = i + 1;
    }
}

/// Listing entries in nondecreasing URL order.
pub open spec fn entries_sorted(s: Seq<CachedSchemaInfo>) -> bool {
    forall|i: int, j: int|
        0 <= i < j < s.len() ==> bytes_le(#[trigger] s[i].url@, #[trigger] s[j].url@)
}

/// Sort a cache listing by URL: the result holds exactly the given entries,
/// in nondecreasing URL order.
pub fn sort_cache_entries(entries: Vec<CachedSchemaInfo>) -> (r: Vec<CachedSchemaInfo>)
    ensures
        entries_sorted(r@),
        r@.to_multiset() == entries@.to_multiset(),
{
    let mut out: Vec<CachedSchemaInfo> = Vec::new();
    let mut rest = entries;
    let ghost all = rest@;
    proof {
        broadcast use vstd::multiset::group_multiset_axioms;

        assert(out@.to_multiset().add(rest@.to_multiset()) =~= all.to_multiset()) by {
            out@.to_multiset_ensures();
            assert(out@.to_multiset().len() == 0);
        }
    }
    while rest.len() > 0
        invariant
            entries_sorted(out@),
            out@.to_multiset().add(rest@.to_multiset()) == all.to_multiset(),
        decreases rest@.len(),
    {
        let ghost pre_rest = rest@;
        let ghost pre_out = out@;
        let e = rest.remove(0);
        proof {
            broadcast use vstd::multiset::group_multiset_axioms;

            pre_rest.to_multiset_ensures();
            assert(rest@.to_multiset() =~= pre_rest.to_multiset().remove(e));
            assert(pre_rest =~= seq![e] + pre_rest.drop_first());
            vstd::seq_lib::lemma_multiset_commutative(seq![e], pre_rest.drop_first());
            assert(seq![e].to_multiset() =~= Multiset::<CachedSchemaInfo>::empty().insert(e)) by {
                assert(Seq::<CachedSchemaInfo>::empty().push(e) =~= seq![e]);
                Seq::<CachedSchemaInfo>::empty().to_multiset_ensures();
            }
            assert(pre_rest.to_multiset().count(e) >= 1);
        }
        let mut pos: usize = 0;
        while pos < out.len() && url_le(&out[pos].url, &e.url)
            invariant
                pos <= out@.len(),
                forall|k: int| 0 <= k < pos ==> bytes_le(#[trigger] out@[k].url@, e.url@),
            decreases out@.len() - pos,
        {
            pos = pos + 1;
        }
        let ghost mid = out@;
        out.insert(pos, e);
        proof {
            broadcast use vstd::multiset::group_multiset_axioms;

            // Order: everything before the slot is at most `e`, everything
            // after is at least `e` by totality and transitivity.
            if (pos as int) < mid.len() {
                lemma_bytes_le_total(mid[pos as int].url@, e.url@);
            }
            assert forall|i: int, j: int| 0 <= i < j < out@.len() implies bytes_le(
                #[trigger] out@[i].url@,
                #[trigger] out@[j].url@,
            ) by {
                let iv = if i < pos {
                    i
                } else {
                    i - 1
                };
                let jv = if j < pos {
                    j
                } else {
                    j - 1
                };
                if i == pos && j > pos {
                    assert(out@[j] == mid[jv]);
                    if jv > pos {
                        lemma_bytes_le_trans(e.url@, mid[pos as int].url@, mid[jv].url@);
                    }
                } else if j == pos {
                    assert(out@[i] == mid[iv]);
                } else {
                    assert(out@[i] == mid[iv]);
                    assert(out@[j] == mid[jv]);
                }
            }
            // Contents: inserting splits the sequence around the slot.
            assert(out@ =~= mid.take(pos as int) + (seq![e] + mid.skip(pos as int)));
            vstd::seq_lib::lemma_multiset_commutative(
                mid.take(pos as int),
                seq![e] + mid.skip(pos as int),
            );
            vstd::seq_lib::lemma_multiset_commutative(seq![e], mid.skip(pos as int));
            vstd::seq_lib::lemma_multiset_commutative(mid.take(pos as int), mid.skip(pos as int));
            assert(mid.take(pos as int) + mid.skip(pos as int) =~= mid);
            assert(seq![e].to_multiset() =~= Multiset::<CachedSchemaInfo>::empty().insert(e)) by {
                assert(Seq::<CachedSchemaInfo>::empty().push(e) =~= seq![e]);
                Seq::<CachedSchemaInfo>::empty().to_multiset_ensures();
            }
            assert(out@.to_multiset() =~= mid.to_multiset().insert(e));
            assert(out@.to_multiset().add(rest@.to_multiset()) =~= all.to_multiset());
        }
    }
    proof {
        broadcast use vstd::multiset::group_multiset_axioms;

        rest@.to_multiset_ensures();
        assert(rest@.to_multiset().len() == 0);
        assert(out@.to_multiset() =~= all.to_multiset());
    }
    out
}

} // verus!
