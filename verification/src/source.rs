//! Schema sources and path normalization.
//!
//! A schema's bytes come either from a local file or from a URL. Equality is
//! on the normalized form, so that different spellings of the same file path
//! collapse to one cache key. Paths are handled as `/`-separated UTF-8
//! bytes; normalization is purely lexical (`.` dropped, `..` resolving to
//! the parent, never above the root), so cache keys stay stable for files
//! that do not exist yet. Callers that can resolve symlinks on disk pass the
//! resolved path in.

use vstd::prelude::*;
use vstd::string::StringSliceAdditionalSpecFns;

use crate::bytestr::{bytes_eq, bytes_of_slice, lit_bytes, push_bytes, starts_with};

verus! {

/// Where a schema's bytes come from: a normalized local file path, or a URL
/// kept verbatim.
#[derive(Debug)]
pub enum SchemaSource {
    File(Vec<u8>),
    Url(Vec<u8>),
}

/// The mathematical identity of a schema source: the kind and the key text.
pub enum SourceModel {
    FileKey(Seq<u8>),
    UrlKey(Seq<u8>),
}

impl View for SchemaSource {
    type V = SourceModel;

    open spec fn view(&self) -> SourceModel {
        match self {
            SchemaSource::File(p) => SourceModel::FileKey(p@),
            SchemaSource::Url(u) => SourceModel::UrlKey(u@),
        }
    }
}

impl SchemaSource {
    /// Whether two sources are the same cache key.
    pub fn same(&self, other: &SchemaSource) -> (r: bool)
        ensures
            r == (self@ == other@),
    {
        match (self, other) {
            (SchemaSource::File(a), SchemaSource::File(b)) => bytes_eq(a, b),
            (SchemaSource::Url(a), SchemaSource::Url(b)) => bytes_eq(a, b),
            _ => false,
        }
    }

    /// Copy a source.
    pub fn duplicate(&self) -> (r: SchemaSource)
        ensures
            r@ == self@,
    {
        match self {
            SchemaSource::File(p) => SchemaSource::File(crate::bytestr::clone_bytes(p)),
            SchemaSource::Url(u) => SchemaSource::Url(crate::bytestr::clone_bytes(u)),
        }
    }

    /// A file source under its normalized path.
    pub fn file(path: &[u8]) -> (r: SchemaSource)
        ensures
            r@ == SourceModel::FileKey(normalize_spec(path@)),
    {
        SchemaSource::File(normalize_lexical(path))
    }
}

/// Whether a path is absolute.
pub open spec fn is_absolute_spec(p: Seq<u8>) -> bool {
    p.len() > 0 && p[0] == 47
}

/// The splitter's running state: finished segments and the bytes of the
/// segment being read.
pub struct SplitState {
    pub segs: Seq<Seq<u8>>,
    pub cur: Seq<u8>,
}

/// Split a path prefix into `/`-separated segments, empty pieces dropped.
pub open spec fn split_state(p: Seq<u8>, i: int) -> SplitState
    decreases i,
{
    if i <= 0 {
        SplitState { segs: Seq::empty(), cur: Seq::empty() }
    } else {
        let st = split_state(p, i - 1);
        let b = p[i - 1];
        if b == 47 {
            if st.cur.len() > 0 {
                SplitState { segs: st.segs.push(st.cur), cur: Seq::empty() }
            } else {
                st
            }
        } else {
            SplitState { segs: st.segs, cur: st.cur.push(b) }
        }
    }
}

/// The segments of a whole path.
pub open spec fn split_segs(p: Seq<u8>) -> Seq<Seq<u8>> {
    let st = split_state(p, p.len() as int);
    if st.cur.len() > 0 {
        st.segs.push(st.cur)
    } else {
        st.segs
    }
}

/// Resolve `.` and `..` segments: `.` disappears, `..` removes the previous
/// segment if there is one (never climbing above the root).
pub open spec fn norm_prefix(segs: Seq<Seq<u8>>, i: int) -> Seq<Seq<u8>>
    decreases i,
{
    if i <= 0 {
        Seq::empty()
    } else {
        let pre = norm_prefix(segs, i - 1);
        let s = segs[i - 1];
        if s == ".".spec_bytes() {
            pre
        } else if s == "..".spec_bytes() {
            if pre.len() > 0 {
                pre.drop_last()
            } else {
                pre
            }
        } else {
            pre.push(s)
        }
    }
}

/// Join segments with `/`, prefixed by `/` when the path is absolute.
pub open spec fn join_prefix(absolute: bool, segs: Seq<Seq<u8>>, i: int) -> Seq<u8>
    decreases i,
{
    if i <= 0 {
        if absolute {
            seq![47u8]
        } else {
            Seq::empty()
        }
    } else {
        let pre = join_prefix(absolute, segs, i - 1);
        if i == 1 && !absolute {
            pre + segs[0]
        } else if i == 1 && absolute {
            pre + segs[0]
        } else {
            pre + seq![47u8] + segs[i - 1]
        }
    }
}

/// The lexical normalization of a path: its segments with `.` and `..`
/// resolved, joined back together, keeping absoluteness.
pub open spec fn normalize_spec(p: Seq<u8>) -> Seq<u8> {
    let segs = norm_prefix(split_segs(p), split_segs(p).len() as int);
    join_prefix(is_absolute_spec(p), segs, segs.len() as int)
}

/// Split a path into its non-empty `/`-separated segments.
fn split_path(p: &[u8]) -> (r: Vec<Vec<u8>>)
    ensures
        r@.map_values(|v: Vec<u8>| v@) == split_segs(p@),
{
    let mut segs: Vec<Vec<u8>> = Vec::new();
    let mut cur: Vec<u8> = Vec::new();
    let mut i: usize = 0;
    proof {
        assert(segs@.map_values(|v: Vec<u8>| v@) =~= split_state(p@, 0).segs);
        assert(cur@ =~= split_state(p@, 0).cur);
    }
    while i < p.len()
        invariant
            i <= p@.len(),
            segs@.map_values(|v: Vec<u8>| v@) == split_state(p@, i as int).segs,
            cur@ == split_state(p@, i as int).cur,
        decreases p@.len() - i,
    {
        let ghost pre_segs = segs@;
        let b = p[i];
        if b == 47 {
            if cur.len() > 0 {
                segs.push(cur);
                cur = Vec::new();
                proof {
                    assert(segs@.map_values(|v: Vec<u8>| v@) =~= pre_segs.map_values(
                        |v: Vec<u8>| v@,
                    ).push(split_state(p@, i as int).cur));
                }
            }
        } else {
            cur.push(b);
        }
        i = i + 1;
    }
    if cur.len() > 0 {
        let ghost pre_segs = segs@;
        segs.push(cur);
        proof {
            assert(segs@.map_values(|v: Vec<u8>| v@) =~= pre_segs.map_values(|v: Vec<u8>| v@).push(
                split_state(p@, p@.len() as int).cur,
            ));
        }
    }
    segs
}

/// Strip `.` and `..` segments from a path without touching the filesystem:
/// `.` disappears, `..` removes the segment before it, and the result keeps
/// the original path's absoluteness.
pub fn normalize_lexical(path: &[u8]) -> (r: Vec<u8>)
    ensures
        r@ == normalize_spec(path@),
{
    let absolute = path.len() > 0 && path[0] == 47;
    let segs = split_path(path);
    let ghost sv = segs@.map_values(|v: Vec<u8>| v@);

    let dot = lit_bytes(".");
    let dotdot = lit_bytes("..");
    let mut out: Vec<Vec<u8>> = Vec::new();
    let mut i: usize = 0;
    proof {
        assert(out@.map_values(|v: Vec<u8>| v@) =~= norm_prefix(sv, 0));
    }
    while i < segs.len()
        invariant
            i <= segs@.len(),
            sv == segs@.map_values(|v: Vec<u8>| v@),
            dot@ == ".".spec_bytes(),
            dotdot@ == "..".spec_bytes(),
            out@.map_values(|v: Vec<u8>| v@) == norm_prefix(sv, i as int),
        decreases segs@.len() - i,
    {
        let ghost pre = out@;
        proof {
            assert(sv[i as int] == segs@[i as int]@);
        }
        if bytes_eq(&segs[i], &dot) {
            proof {
                assert(sv[i as int] == ".".spec_bytes());
                assert(norm_prefix(sv, i + 1) == norm_prefix(sv, i as int));
                assert(out@.map_values(|v: Vec<u8>| v@) == norm_prefix(sv, i + 1));
            }
        } else if bytes_eq(&segs[i], &dotdot) {
            proof {
                assert(sv[i as int] == "..".spec_bytes());
            }
            if out.len() > 0 {
                let _ = out.pop();
                proof {
                    assert(out@.map_values(|v: Vec<u8>| v@) =~= pre.map_values(
                        |v: Vec<u8>| v@,
                    ).drop_last());
                    assert(out@.map_values(|v: Vec<u8>| v@) == norm_prefix(sv, i + 1));
                }
            } else {
                proof {
                    assert(norm_prefix(sv, i as int).len() == 0);
                    assert(out@.map_values(|v: Vec<u8>| v@) == norm_prefix(sv, i + 1));
                }
            }
        } else {
            proof {
                assert(sv[i as int] != ".".spec_bytes() && sv[i as int] != "..".spec_bytes());
            }
            out.push(bytes_of_slice(segs[i].as_slice()));
            proof {
                assert(out@.map_values(|v: Vec<u8>| v@) =~= pre.map_values(|v: Vec<u8>| v@).push(
                    sv[i as int],
                ));
            }
        }
        i = i + 1;
    }
    let ghost ov = out@.map_values(|v: Vec<u8>| v@);

    let mut joined: Vec<u8> = Vec::new();
    if absolute {
        joined.push(47);
    }
    proof {
        assert(joined@ =~= join_prefix(absolute, ov, 0));
    }
    let mut k: usize = 0;
    while k < out.len()
        invariant
            k <= out@.len(),
            ov == out@.map_values(|v: Vec<u8>| v@),
            absolute == is_absolute_spec(path@),
            joined@ == join_prefix(absolute, ov, k as int),
        decreases out@.len() - k,
    {
        if k > 0 {
            joined.push(47);
        }
        push_bytes(&mut joined, out[k].as_slice());
        proof {
            if k == 0 {
                assert(joined@ =~= join_prefix(absolute, ov, 1));
            } else {
                assert(joined@ =~= join_prefix(absolute, ov, k + 1));
            }
        }
        k = k + 1;
    }
    joined
}

/// Whether a schema reference is a URL: it begins `http://` or `https://`.
pub open spec fn is_url_ref(r: Seq<u8>) -> bool {
    ||| (r.len() >= 7 && r.take(7) == "http://".spec_bytes())
    ||| (r.len() >= 8 && r.take(8) == "https://".spec_bytes())
}

/// What a schema reference resolves to: URLs stay verbatim; file paths are
/// made absolute against the base directory if relative, then normalized.
pub open spec fn resolve_schema_ref_spec(schema_ref: Seq<u8>, base_dir: Seq<u8>) -> SourceModel {
    if is_url_ref(schema_ref) {
        SourceModel::UrlKey(schema_ref)
    } else if is_absolute_spec(schema_ref) {
        SourceModel::FileKey(normalize_spec(schema_ref))
    } else {
        SourceModel::FileKey(normalize_spec(base_dir + seq![47u8] + schema_ref))
    }
}

/// Resolve a `$schema` reference string to a schema source: `http://` and
/// `https://` references become URL sources; anything else is a file path,
/// resolved against `base_dir` when relative, and normalized.
pub fn resolve_schema_ref(schema_ref: &[u8], base_dir: &[u8]) -> (r: SchemaSource)
    ensures
        r@ == resolve_schema_ref_spec(schema_ref@, base_dir@),
{
    proof {
        reveal_strlit("http://");
        reveal_strlit("https://");
    }
    let hs: &str = "http://";
    let hss: &str = "https://";
    assert(hs.is_ascii()) by {
        assert(hs@.len() == 7);
    }
    assert(hss.is_ascii()) by {
        assert(hss@.len() == 8);
    }
    proof {
        vstd::string::is_ascii_spec_bytes(hs);
        vstd::string::is_ascii_spec_bytes(hss);
        assert(hs.spec_bytes().len() == 7);
        assert(hss.spec_bytes().len() == 8);
    }
    let http = lit_bytes(hs);
    let https = lit_bytes(hss);
    if starts_with(schema_ref, http.as_slice()) || starts_with(schema_ref, https.as_slice()) {
        assert(is_url_ref(schema_ref@));
        SchemaSource::Url(bytes_of_slice(schema_ref))
    } else if schema_ref.len() > 0 && schema_ref[0] == 47 {
        assert(!is_url_ref(schema_ref@));
        SchemaSource::File(normalize_lexical(schema_ref))
    } else {
        assert(!is_url_ref(schema_ref@));
        let mut abs = bytes_of_slice(base_dir);
        abs.push(47);
        push_bytes(&mut abs, schema_ref);
        proof {
            assert(abs@ =~= base_dir@ + seq![47u8] + schema_ref@);
        }
        let r = SchemaSource::File(normalize_lexical(abs.as_slice()));
        r
    }
}

/// The parent directory of a path: everything before the last `/`, the root
/// for a top-level absolute path, and `.` when there is no directory part.
pub open spec fn parent_dir_spec(p: Seq<u8>) -> Seq<u8> {
    if last_slash(p, p.len() as int) is Some {
        let k = last_slash(p, p.len() as int)->0;
        if k == 0 {
            seq![47u8]
        } else {
            p.take(k)
        }
    } else {
        ".".spec_bytes()
    }
}

/// The index of the last `/` strictly before position `i`, if any.
pub open spec fn last_slash(p: Seq<u8>, i: int) -> Option<int>
    decreases i,
{
    if i <= 0 {
        None
    } else if p[i - 1] == 47 {
        Some(i - 1)
    } else {
        last_slash(p, i - 1)
    }
}

/// The directory containing a path: everything before the final `/`; the
/// root stays the root, and a bare name has directory `.`.
pub fn parent_dir(p: &[u8]) -> (r: Vec<u8>)
    ensures
        r@ == parent_dir_spec(p@),
{
    let mut i: usize = p.len();
    while i > 0
        invariant
            i <= p@.len(),
            last_slash(p@, p@.len() as int) == last_slash(p@, i as int),
        decreases i,
    {
        if p[i - 1] == 47 {
            if i - 1 == 0 {
                let mut root: Vec<u8> = Vec::new();
                root.push(47);
                return root;
            }
            let r = bytes_of_slice(&p[0..i - 1]);
            proof {
                assert(r@ =~= p@.take(i - 1));
            }
            return r;
        }
        i = i - 1;
    }
    lit_bytes(".")
}

} // verus!
