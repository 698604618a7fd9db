//! Walking a raw schema value for editor features.
//!
//! Hover and completion read annotations (`title`, `description`), property
//! lists and value suggestions straight out of the raw schema, following
//! fragment-only `$ref` references and merging `allOf` branches. The walk is
//! depth-bounded and keeps a visited set of reference strings, so reference
//! cycles terminate instead of looping.

use vstd::prelude::*;
use vstd::string::StringSliceAdditionalSpecFns;

use crate::bytestr::{bytes_eq, bytes_of_slice, clone_bytes, lit_bytes, push_bytes, push_str_bytes};
use crate::json::{object_get, value_member_index, JsonValue};

verus! {

/// The deepest nesting the schema walk follows, a defense against
/// pathological or adversarial schemas.
pub const MAX_SCHEMA_DEPTH: usize = 32;

/// Title and description annotations found at a schema location.
#[derive(Debug)]
pub struct SchemaAnnotation {
    pub title: Option<Vec<u8>>,
    pub description: Option<Vec<u8>>,
}

/// A property a schema declares, for completion.
#[derive(Debug)]
pub struct PropertyInfo {
    pub name: Vec<u8>,
    pub required: bool,
    pub description: Option<Vec<u8>>,
    pub schema_type: Option<Vec<u8>>,
}

/// A value suggestion for a property, drawn from the schema: a member of an
/// `enum`, the `const` value, or the values a primitive type implies.
#[derive(Debug)]
pub enum ValueSuggestion<'a> {
    EnumChoice(&'a JsonValue),
    ConstValue(&'a JsonValue),
    BooleanToggle,
    NullValue,
}

/// Hover text stays readable: annotation text longer than this is cut at a
/// character boundary.
pub const MAX_ANNOTATION_LEN: usize = 10_000;

/// The largest byte count at most `n` that does not split a UTF-8 sequence.
pub open spec fn floor_boundary(s: Seq<u8>, n: int) -> int
    decreases n,
{
    if n <= 0 {
        0
    } else if n >= s.len() {
        s.len() as int
    } else if s[n] < 0x80 || s[n] >= 0xC0 {
        n
    } else {
        floor_boundary(s, n - 1)
    }
}

/// Annotation text as displayed: cut at a character boundary near the
/// length cap, with a trailing ellipsis when something was cut.
pub open spec fn truncated_spec(s: Seq<u8>) -> Seq<u8> {
    if s.len() > MAX_ANNOTATION_LEN {
        s.take(floor_boundary(s, MAX_ANNOTATION_LEN as int)) + "...".spec_bytes()
    } else {
        s
    }
}

/// Cut annotation text at a character boundary near the length cap.
fn truncate_annotation(s: &Vec<u8>) -> (r: Vec<u8>)
    ensures
        r@ == truncated_spec(s@),
{
    if s.len() > MAX_ANNOTATION_LEN {
        let mut b: usize = MAX_ANNOTATION_LEN;
        while b > 0 && s[b] >= 0x80 && s[b] < 0xC0
            invariant
                0 <= b <= MAX_ANNOTATION_LEN < s@.len(),
                floor_boundary(s@, MAX_ANNOTATION_LEN as int) == floor_boundary(s@, b as int),
            decreases b,
        {
            b = b - 1;
        }
        let mut out = bytes_of_slice(&s.as_slice()[0..b]);
        proof {
            assert(out@ =~= s@.take(b as int));
        }
        push_str_bytes(&mut out, "...");
        out
    } else {
        clone_bytes(s)
    }
}

/// The Markdown rendering of an annotation: a bold title, a description, or
/// both separated by a blank line; nothing when both are absent.
pub open spec fn markdown_spec(
    title: Option<Seq<u8>>,
    description: Option<Seq<u8>>,
) -> Option<Seq<u8>> {
    match (title, description) {
        (Some(t), Some(d)) => Some(
            "**".spec_bytes() + truncated_spec(t) + "**\n\n".spec_bytes() + truncated_spec(d),
        ),
        (Some(t), None) => Some("**".spec_bytes() + truncated_spec(t) + "**".spec_bytes()),
        (None, Some(d)) => Some(truncated_spec(d)),
        (None, None) => None,
    }
}

impl SchemaAnnotation {
    /// Format the annotation as Markdown for hover display; nothing when
    /// both title and description are absent.
    pub fn to_markdown(&self) -> (r: Option<Vec<u8>>)
        ensures
            match (r, markdown_spec(
                match self.title {
                    Some(t) => Some(t@),
                    None => None,
                },
                match self.description {
                    Some(d) => Some(d@),
                    None => None,
                },
            )) {
                (Some(m), Some(s)) => m@ == s,
                (None, None) => true,
                _ => false,
            },
    {
        match (&self.title, &self.description) {
            (Some(t), Some(d)) => {
                let mut out = lit_bytes("**");
                let tt = truncate_annotation(t);
                push_bytes(&mut out, tt.as_slice());
                push_str_bytes(&mut out, "**\n\n");
                let dd = truncate_annotation(d);
                push_bytes(&mut out, dd.as_slice());
                Some(out)
            },
            (Some(t), None) => {
                let mut out = lit_bytes("**");
                let tt = truncate_annotation(t);
                push_bytes(&mut out, tt.as_slice());
                push_str_bytes(&mut out, "**");
                Some(out)
            },
            (None, Some(d)) => Some(truncate_annotation(d)),
            (None, None) => None,
        }
    }
}

/// A string member of a value object, by key.
pub open spec fn text_member_spec(v: JsonValue, key: Seq<u8>) -> Option<Seq<u8>> {
    match v {
        JsonValue::Object(members) => match value_member_index(members@, key) {
            Some(i) => match members@[i].value {
                JsonValue::Text(s) => Some(s@),
                _ => None,
            },
            None => None,
        },
        _ => None,
    }
}

/// Read a string-valued member of a schema object.
fn text_member<'a>(v: &'a JsonValue, key: &Vec<u8>) -> (r: Option<&'a Vec<u8>>)
    ensures
        match (r, text_member_spec(*v, key@)) {
            (Some(s), Some(m)) => s@ == m,
            (None, None) => true,
            _ => false,
        },
{
    match v {
        JsonValue::Object(members) => {
            match object_get(members, key) {
                Some(JsonValue::Text(s)) => Some(s),
                _ => None,
            }
        },
        _ => None,
    }
}

/// A member of a value object, by key.
pub open spec fn member_spec(v: JsonValue, key: Seq<u8>) -> Option<JsonValue> {
    match v {
        JsonValue::Object(members) => match value_member_index(members@, key) {
            Some(i) => Some(members@[i].value),
            None => None,
        },
        _ => None,
    }
}

/// Read a member of a schema object.
fn member_of<'a>(v: &'a JsonValue, key: &Vec<u8>) -> (r: Option<&'a JsonValue>)
    ensures
        match (r, member_spec(*v, key@)) {
            (Some(s), Some(m)) => *s == m,
            (None, None) => true,
            _ => false,
        },
{
    match v {
        JsonValue::Object(members) => object_get(members, key),
        _ => None,
    }
}

/// A JSON Pointer segment with `~1` and `~0` unescaped, scanning left to
/// right.
pub open spec fn unescape_spec(s: Seq<u8>) -> Seq<u8>
    decreases s.len(),
{
    if s.len() == 0 {
        Seq::empty()
    } else if s[0] == 126 && s.len() >= 2 && s[1] == 49 {
        seq![47u8] + unescape_spec(s.skip(2))
    } else if s[0] == 126 && s.len() >= 2 && s[1] == 48 {
        seq![126u8] + unescape_spec(s.skip(2))
    } else {
        seq![s[0]] + unescape_spec(s.skip(1))
    }
}

/// Unescape a JSON Pointer segment: `~1` denotes `/` and `~0` denotes `~`.
fn unescape_segment(s: &[u8]) -> (r: Vec<u8>)
    ensures
        r@ == unescape_spec(s@),
    decreases s@.len(),
{
    let mut out: Vec<u8> = Vec::new();
    if s.len() == 0 {
        proof {
            assert(out@ =~= unescape_spec(s@));
        }
        return out;
    }
    if s[0] == 126 && s.len() >= 2 && (s[1] == 49 || s[1] == 48) {
        out.push(if s[1] == 49 {
            47
        } else {
            126
        });
        let rest = unescape_segment(&s[2..s.len()]);
        proof {
            assert(s@.subrange(2, s@.len() as int) =~= s@.skip(2));
        }
        push_bytes(&mut out, rest.as_slice());
        proof {
            assert(out@ =~= unescape_spec(s@));
        }
        out
    } else {
        out.push(s[0]);
        let rest = unescape_segment(&s[1..s.len()]);
        proof {
            assert(s@.subrange(1, s@.len() as int) =~= s@.skip(1));
        }
        push_bytes(&mut out, rest.as_slice());
        proof {
            assert(out@ =~= unescape_spec(s@));
        }
        out
    }
}

/// The `/`-separated pieces of a fragment pointer, empty pieces kept.
pub open spec fn frag_split_state(p: Seq<u8>, i: int) -> (Seq<Seq<u8>>, Seq<u8>)
    decreases i,
{
    if i <= 0 {
        (Seq::empty(), Seq::empty())
    } else {
        let st = frag_split_state(p, i - 1);
        if p[i - 1] == 47 {
            (st.0.push(st.1), Seq::empty())
        } else {
            (st.0, st.1.push(p[i - 1]))
        }
    }
}

/// All pieces of a fragment pointer.
pub open spec fn frag_pieces(p: Seq<u8>) -> Seq<Seq<u8>> {
    let st = frag_split_state(p, p.len() as int);
    st.0.push(st.1)
}

/// Split a fragment pointer at every `/`, keeping empty pieces.
fn split_fragment(p: &[u8]) -> (r: Vec<Vec<u8>>)
    ensures
        r@.map_values(|v: Vec<u8>| v@) == frag_pieces(p@),
{
    let mut pieces: Vec<Vec<u8>> = Vec::new();
    let mut cur: Vec<u8> = Vec::new();
    let mut i: usize = 0;
    proof {
        assert(pieces@.map_values(|v: Vec<u8>| v@) =~= frag_split_state(p@, 0).0);
        assert(cur@ =~= frag_split_state(p@, 0).1);
    }
    while i < p.len()
        invariant
            i <= p@.len(),
            pieces@.map_values(|v: Vec<u8>| v@) == frag_split_state(p@, i as int).0,
            cur@ == frag_split_state(p@, i as int).1,
        decreases p@.len() - i,
    {
        let ghost pre = pieces@;
        if p[i] == 47 {
            pieces.push(cur);
            cur = Vec::new();
            proof {
                assert(pieces@.map_values(|v: Vec<u8>| v@) =~= pre.map_values(
                    |v: Vec<u8>| v@,
                ).push(frag_split_state(p@, i as int).1));
            }
        } else {
            cur.push(p[i]);
        }
        i = i + 1;
    }
    let ghost pre = pieces@;
    pieces.push(cur);
    proof {
        assert(pieces@.map_values(|v: Vec<u8>| v@) =~= pre.map_values(|v: Vec<u8>| v@).push(
            frag_split_state(p@, p@.len() as int).1,
        ));
    }
    pieces
}

/// Walking a fragment pointer through the schema document, one object member
/// per piece.
pub open spec fn frag_walk_spec(root: JsonValue, pieces: Seq<Seq<u8>>, i: int) -> Option<JsonValue>
    decreases pieces.len() - i,
{
    if i >= pieces.len() {
        Some(root)
    } else {
        match member_spec(root, unescape_spec(pieces[i])) {
            Some(next) => frag_walk_spec(next, pieces, i + 1),
            None => None,
        }
    }
}

/// Whether a visited set already holds a reference string.
pub open spec fn visited_has(visited: Seq<Seq<u8>>, r: Seq<u8>) -> bool {
    exists|i: int| 0 <= i < visited.len() && visited[i] == r
}

/// What following `$ref` yields: a schema without a fragment `$ref` member
/// is itself; a fragment reference already visited is a cycle and yields
/// nothing; otherwise the reference's pointer is walked from the document
/// root and the target is followed in turn, with the reference recorded.
pub open spec fn follow_ref_spec(
    root: JsonValue,
    schema: JsonValue,
    visited: Seq<Seq<u8>>,
    depth: int,
) -> Option<JsonValue>
    decreases MAX_SCHEMA_DEPTH - depth,
{
    if depth >= MAX_SCHEMA_DEPTH {
        None
    } else {
        match text_member_spec(schema, "$ref".spec_bytes()) {
            None => Some(schema),
            Some(r) => {
                if !(r.len() > 0 && r[0] == 35) {
                    Some(schema)
                } else if visited_has(visited, r) {
                    None
                } else {
                    let frag = r.skip(1);
                    if frag.len() == 0 || frag == "/".spec_bytes() {
                        Some(root)
                    } else if frag[0] == 47 {
                        match frag_walk_spec(root, frag_pieces(frag.skip(1)), 0) {
                            Some(target) => follow_ref_spec(
                                root,
                                target,
                                visited.push(r),
                                depth + 1,
                            ),
                            None => None,
                        }
                    } else {
                        None
                    }
                }
            },
        }
    }
}

/// Follow a fragment-only `$ref` within the schema document, recording each
/// reference string to break cycles.
fn follow_ref<'a>(
    root: &'a JsonValue,
    schema: &'a JsonValue,
    visited: &mut Vec<Vec<u8>>,
    depth: usize,
) -> (r: Option<&'a JsonValue>)
    requires
        depth <= MAX_SCHEMA_DEPTH,
    ensures
        match (r, follow_ref_spec(*root, *schema, old(visited)@.map_values(|v: Vec<u8>| v@),
            depth as int)) {
            (Some(s), Some(m)) => *s == m,
            (None, None) => true,
            _ => false,
        },
    decreases MAX_SCHEMA_DEPTH - depth,
{
    if depth >= MAX_SCHEMA_DEPTH {
        return None;
    }
    let ref_key = lit_bytes("$ref");
    let rtext = match text_member(schema, &ref_key) {
        None => {
            return Some(schema);
        },
        Some(r) => r,
    };
    if !(rtext.len() > 0 && rtext[0] == 35) {
        return Some(schema);
    }
    // Cycle detection over the recorded reference strings.
    let ghost vviews = visited@.map_values(|v: Vec<u8>| v@);
    let mut seen = false;
    let mut i: usize = 0;
    while i < visited.len()
        invariant
            i <= visited@.len(),
            vviews == visited@.map_values(|v: Vec<u8>| v@),
            seen == exists|j: int| 0 <= j < i && vviews[j] == rtext@,
        decreases visited@.len() - i,
    {
        proof {
            assert(vviews[i as int] == visited@[i as int]@);
        }
        if bytes_eq(&visited[i], rtext) {
            seen = true;
            proof {
                assert(vviews[i as int] == rtext@);
            }
        }
        i = i + 1;
    }
    if seen {
        proof {
            assert(visited_has(vviews, rtext@));
        }
        return None;
    }
    proof {
        assert(!visited_has(vviews, rtext@));
    }
    let frag = bytes_of_slice(&rtext.as_slice()[1..rtext.len()]);
    proof {
        assert(frag@ =~= rtext@.skip(1));
    }
    let slash = lit_bytes("/");
    if frag.len() == 0 || bytes_eq(&frag, &slash) {
        proof {
            reveal_strlit("/");
        }
        return Some(root);
    }
    if frag[0] != 47 {
        proof {
            reveal_strlit("/");
            assert(frag@ != "/".spec_bytes()) by {
                let s: &str = "/";
                assert(s@.len() == 1);
            }
        }
        return None;
    }
    let pointer = bytes_of_slice(&frag.as_slice()[1..frag.len()]);
    proof {
        assert(pointer@ =~= frag@.skip(1));
    }
    let pieces = split_fragment(pointer.as_slice());
    let ghost piece_views = pieces@.map_values(|v: Vec<u8>| v@);
    let mut target: &JsonValue = root;
    let mut k: usize = 0;
    proof {
        assert(pointer@ == rtext@.skip(1).skip(1));
    }
    while k < pieces.len()
        invariant
            k <= pieces@.len(),
            depth < MAX_SCHEMA_DEPTH,
            piece_views == pieces@.map_values(|v: Vec<u8>| v@),
            vviews == visited@.map_values(|v: Vec<u8>| v@),
            vviews == old(visited)@.map_values(|v: Vec<u8>| v@),
            text_member_spec(*schema, "$ref".spec_bytes()) matches Some(rt) && rt == rtext@,
            rtext@.len() > 0 && rtext@[0] == 35,
            !visited_has(vviews, rtext@),
            !(rtext@.skip(1).len() == 0 || rtext@.skip(1) == "/".spec_bytes()),
            rtext@.skip(1)[0] == 47,
            piece_views == frag_pieces(rtext@.skip(1).skip(1)),
            frag_walk_spec(*root, piece_views, 0) == frag_walk_spec(
                *target,
                piece_views,
                k as int,
            ),
        decreases pieces@.len() - k,
    {
        proof {
            assert(piece_views[k as int] == pieces@[k as int]@);
        }
        let seg = unescape_segment(pieces[k].as_slice());
        match member_of(target, &seg) {
            Some(next) => {
                target = next;
            },
            None => {
                proof {
                    assert(frag_walk_spec(*root, piece_views, 0) is None);
                    assert(follow_ref_spec(*root, *schema, vviews, depth as int) is None);
                }
                return None;
            },
        }
        k = k + 1;
    }
    let recorded = clone_bytes(rtext);
    let ghost pre = visited@;
    visited.push(recorded);
    proof {
        assert(visited@.map_values(|v: Vec<u8>| v@) =~= vviews.push(rtext@));
    }
    follow_ref(root, target, visited, depth + 1)
}

/// Read the `title` and `description` annotations of the schema node a
/// pointer path addresses: exactly the text members of the subschema
/// `walk_spec` reaches; nothing when the path does not resolve or carries
/// no annotation.
pub fn lookup_schema_annotation(
    schema: &JsonValue,
    pointer: &Vec<Vec<u8>>,
) -> (r: Option<SchemaAnnotation>)
    ensures
        match walk_spec(*schema, *schema, crate::json::path_view(*pointer), 0int, 0int) {
            None => r is None,
            Some(s) => {
                let t = text_member_spec(s, "title".spec_bytes());
                let d = text_member_spec(s, "description".spec_bytes());
                if t is None && d is None {
                    r is None
                } else {
                    r matches Some(a) && (match (a.title, t) {
                        (Some(at), Some(st)) => at@ == st,
                        (None, None) => true,
                        _ => false,
                    }) && (match (a.description, d) {
                        (Some(ad), Some(sd)) => ad@ == sd,
                        (None, None) => true,
                        _ => false,
                    })
                }
            },
        },
{
    let sub = match resolve_subschema_at_pointer(schema, pointer) {
        Some(s) => s,
        None => {
            return None;
        },
    };
    let title_key = lit_bytes("title");
    let desc_key = lit_bytes("description");
    let title = match text_member(sub, &title_key) {
        Some(t) => Some(clone_bytes(t)),
        None => None,
    };
    let description = match text_member(sub, &desc_key) {
        Some(d) => Some(clone_bytes(d)),
        None => None,
    };
    if title.is_none() && description.is_none() {
        return None;
    }
    Some(SchemaAnnotation { title, description })
}

/// The hover text at a pointer path: the Markdown rendering of the
/// annotations at the subschema the walk addresses; nothing when the path
/// does not resolve or both annotations are absent.
pub fn lookup_hover_content(schema: &JsonValue, pointer: &Vec<Vec<u8>>) -> (r: Option<Vec<u8>>)
    ensures
        match walk_spec(*schema, *schema, crate::json::path_view(*pointer), 0int, 0int) {
            None => r is None,
            Some(s) => {
                match markdown_spec(
                    text_member_spec(s, "title".spec_bytes()),
                    text_member_spec(s, "description".spec_bytes()),
                ) {
                    None => r is None,
                    Some(m) => r matches Some(h) && h@ == m,
                }
            },
        },
{
    match lookup_schema_annotation(schema, pointer) {
        Some(a) => a.to_markdown(),
        None => None,
    }
}

/// Whether a byte sequence is one to nine decimal digits.
pub open spec fn is_small_index(s: Seq<u8>) -> bool {
    1 <= s.len() <= 9 && forall|i: int| 0 <= i < s.len() ==> 48 <= #[trigger] s[i] <= 57
}

/// The value of a digit sequence.
pub open spec fn dec_val(s: Seq<u8>) -> int
    decreases s.len(),
{
    if s.len() == 0 {
        0
    } else {
        dec_val(s.drop_last()) * 10 + (s.last() - 48)
    }
}

/// Parse an array index of at most nine decimal digits.
fn parse_index(s: &Vec<u8>) -> (r: Option<usize>)
    ensures
        match r {
            Some(n) => is_small_index(s@) && n as int == dec_val(s@),
            None => !is_small_index(s@),
        },
{
    if s.len() == 0 || s.len() > 9 {
        return None;
    }
    let mut acc: usize = 0;
    let mut i: usize = 0;
    while i < s.len()
        invariant
            i <= s@.len() <= 9,
            acc as int == dec_val(s@.take(i as int)),
            acc < 1_000_000_000,
            forall|j: int| 0 <= j < i ==> 48 <= #[trigger] s@[j] <= 57,
        decreases s@.len() - i,
    {
        let b = s[i];
        if b < 48 || b > 57 {
            return None;
        }
        proof {
            assert(s@.take(i + 1).drop_last() =~= s@.take(i as int));
            assert(s@.take(i + 1).last() == s@[i as int]);
            lemma_digits_bound(s@.take(i as int));
            lemma_pow10_vals();
            lemma_pow10_mono(i as int, 8);
        }
        acc = acc * 10 + ((b - 48) as usize);
        i = i + 1;
    }
    proof {
        assert(s@.take(s@.len() as int) =~= s@);
    }
    Some(acc)
}

/// Ten to the `k`, for small `k`.
pub open spec fn pow10(k: int) -> int
    decreases k,
{
    if k <= 0 {
        1
    } else {
        10 * pow10(k - 1)
    }
}

/// The value of a digit sequence is bounded by ten to its length.
proof fn lemma_digits_bound(s: Seq<u8>)
    requires
        forall|i: int| 0 <= i < s.len() ==> 48 <= #[trigger] s[i] <= 57,
    ensures
        0 <= dec_val(s) < pow10(s.len() as int),
    decreases s.len(),
{
    if s.len() == 0 {
    } else {
        lemma_digits_bound(s.drop_last());
        assert(dec_val(s.drop_last()) * 10 <= (pow10((s.len() - 1) as int) - 1) * 10)
            by (nonlinear_arith)
            requires
                dec_val(s.drop_last()) <= pow10((s.len() - 1) as int) - 1,
        ;
    }
}

/// Concrete small powers of ten.
proof fn lemma_pow10_vals()
    ensures
        pow10(8) == 100_000_000,
        pow10(9) == 1_000_000_000,
{
    assert(pow10(0) == 1);
    assert(pow10(1) == 10);
    assert(pow10(2) == 100);
    assert(pow10(3) == 1000);
    assert(pow10(4) == 10000);
    assert(pow10(5) == 100000);
    assert(pow10(6) == 1000000);
    assert(pow10(7) == 10000000);
    assert(pow10(8) == 100000000);
    assert(pow10(9) == 1000000000);
}

/// Powers of ten grow with the exponent.
proof fn lemma_pow10_mono(a: int, b: int)
    requires
        a <= b,
    ensures
        pow10(a) <= pow10(b),
    decreases b - a,
{
    if a < b {
        lemma_pow10_mono(a, b - 1);
        lemma_pow10_pos(b - 1);
    }
}

proof fn lemma_pow10_pos(k: int)
    ensures
        pow10(k) >= 1,
    decreases k,
{
    if k > 0 {
        lemma_pow10_pos(k - 1);
    }
}

/// The subschema the walk addresses at a pointer, one segment per step:
/// follow `$ref` (with a fresh cycle set per chain), then descend by
/// `properties`; failing that, search the `allOf` branches in order; for a
/// numeric segment, step into `items` (an object or boolean schema) or the
/// indexed `prefixItems` entry; all capped at the maximum depth.
pub open spec fn walk_spec(
    root: JsonValue,
    schema: JsonValue,
    pointer: Seq<Seq<u8>>,
    at: int,
    depth: int,
) -> Option<JsonValue>
    decreases MAX_SCHEMA_DEPTH - depth, pointer.len() - at, 2int, 0int,
{
    if depth >= MAX_SCHEMA_DEPTH || at > pointer.len() || at < 0 {
        None
    } else {
        match follow_ref_spec(root, schema, Seq::empty(), depth) {
            None => None,
            Some(s) => {
                if at == pointer.len() {
                    Some(s)
                } else {
                    let seg = pointer[at];
                    let by_prop = match member_spec(s, "properties".spec_bytes()) {
                        Some(props) => member_spec(props, seg),
                        None => None,
                    };
                    match by_prop {
                        Some(sub) => walk_spec(root, sub, pointer, at + 1, depth + 1),
                        None => {
                            let by_all = match member_spec(s, "allOf".spec_bytes()) {
                                Some(JsonValue::Array(branches)) => walk_branches_spec(
                                    root,
                                    branches@,
                                    pointer,
                                    at,
                                    depth,
                                ),
                                _ => None,
                            };
                            match by_all {
                                Some(hit) => Some(hit),
                                None => walk_index_spec(root, s, pointer, at, depth),
                            }
                        },
                    }
                }
            },
        }
    }
}

/// The first `allOf` branch at which the walk succeeds, in branch order.
pub open spec fn walk_branches_spec(
    root: JsonValue,
    branches: Seq<JsonValue>,
    pointer: Seq<Seq<u8>>,
    at: int,
    depth: int,
) -> Option<JsonValue>
    decreases MAX_SCHEMA_DEPTH - depth, pointer.len() - at, 1int, branches.len(),
{
    if depth >= MAX_SCHEMA_DEPTH || at > pointer.len() || at < 0 || branches.len() == 0 {
        None
    } else {
        match walk_spec(root, branches[0], pointer, at, depth + 1) {
            Some(hit) => Some(hit),
            None => walk_branches_spec(root, branches.drop_first(), pointer, at, depth),
        }
    }
}

/// The numeric-segment step: into `items` when it is an object or boolean
/// schema, else into the indexed `prefixItems` entry.
pub open spec fn walk_index_spec(
    root: JsonValue,
    s: JsonValue,
    pointer: Seq<Seq<u8>>,
    at: int,
    depth: int,
) -> Option<JsonValue>
    decreases MAX_SCHEMA_DEPTH - depth, pointer.len() - at, 0int, 0int,
{
    if depth >= MAX_SCHEMA_DEPTH || at >= pointer.len() || at < 0 || !is_small_index(pointer[at]) {
        None
    } else {
        let idx = dec_val(pointer[at]);
        let by_items = match member_spec(s, "items".spec_bytes()) {
            Some(items) => if items is Object || items is Bool {
                walk_spec(root, items, pointer, at + 1, depth + 1)
            } else {
                None
            },
            None => None,
        };
        match by_items {
            Some(hit) => Some(hit),
            None => match member_spec(s, "prefixItems".spec_bytes()) {
                Some(JsonValue::Array(pitems)) => if idx < pitems@.len() {
                    walk_spec(root, pitems@[idx], pointer, at + 1, depth + 1)
                } else {
                    None
                },
                _ => None,
            },
        }
    }
}

/// Navigate to the subschema a pointer path addresses, per `walk_spec`.
fn resolve_subschema<'a>(
    root: &'a JsonValue,
    schema: &'a JsonValue,
    pointer: &Vec<Vec<u8>>,
    at: usize,
) -> (r: Option<&'a JsonValue>)
    requires
        at <= pointer@.len(),
    ensures
        match (r, walk_spec(*root, *schema, crate::json::path_view(*pointer), at as int, 0int)) {
            (Some(s), Some(m)) => *s == m,
            (None, None) => true,
            _ => false,
        },
{
    resolve_subschema_at(root, schema, pointer, at, 0)
}

/// The walk itself, carrying the depth bound.
fn resolve_subschema_at<'a>(
    root: &'a JsonValue,
    schema: &'a JsonValue,
    pointer: &Vec<Vec<u8>>,
    at: usize,
    depth: usize,
) -> (r: Option<&'a JsonValue>)
    requires
        at <= pointer@.len(),
        depth <= MAX_SCHEMA_DEPTH,
    ensures
        match (r, walk_spec(*root, *schema, crate::json::path_view(*pointer), at as int,
            depth as int)) {
            (Some(s), Some(m)) => *s == m,
            (None, None) => true,
            _ => false,
        },
    decreases MAX_SCHEMA_DEPTH - depth, pointer@.len() - at, 1int,
{
    let ghost pv = crate::json::path_view(*pointer);
    if depth >= MAX_SCHEMA_DEPTH {
        return None;
    }
    let mut visited: Vec<Vec<u8>> = Vec::new();
    proof {
        assert(visited@.map_values(|v: Vec<u8>| v@) =~= Seq::<Seq<u8>>::empty());
    }
    let s = match follow_ref(root, schema, &mut visited, depth) {
        Some(s) => s,
        None => {
            return None;
        },
    };
    if at == pointer.len() {
        return Some(s);
    }
    let segment = &pointer[at];
    proof {
        assert(pv[at as int] == pointer@[at as int]@);
    }

    // properties.<segment>
    let props_key = lit_bytes("properties");
    match member_of(s, &props_key) {
        Some(props) => {
            match member_of(props, segment) {
                Some(sub) => {
                    return resolve_subschema_at(root, sub, pointer, at + 1, depth + 1);
                },
                None => {},
            }
        },
        None => {},
    }

    // allOf branches, first hit wins.
    let ghost full = walk_spec(*root, *schema, pv, at as int, depth as int);
    let allof_key = lit_bytes("allOf");
    match member_of(s, &allof_key) {
        Some(JsonValue::Array(branches)) => {
            let ghost fallback = walk_index_spec(*root, *s, pv, at as int, depth as int);
            proof {
                assert(branches@.skip(0) =~= branches@);
            }
            let mut bi: usize = 0;
            while bi < branches.len()
                invariant
                    at < pointer@.len(),
                    depth < MAX_SCHEMA_DEPTH,
                    bi <= branches@.len(),
                    pv == crate::json::path_view(*pointer),
                    full == walk_spec(*root, *schema, pv, at as int, depth as int),
                    fallback == walk_index_spec(*root, *s, pv, at as int, depth as int),
                    full == (match walk_branches_spec(*root, branches@.skip(bi as int), pv,
                        at as int, depth as int) {
                        Some(h) => Some(h),
                        None => fallback,
                    }),
                decreases branches@.len() - bi,
            {
                proof {
                    assert(branches@.skip(bi as int)[0] == branches@[bi as int]);
                    assert(branches@.skip(bi as int).drop_first() =~= branches@.skip(bi + 1));
                }
                match resolve_subschema_inner(root, &branches[bi], pointer, at, depth + 1) {
                    Some(hit) => {
                        return Some(hit);
                    },
                    None => {},
                }
                bi = bi + 1;
            }
            walk_items(root, s, pointer, at, depth)
        },
        _ => {
            proof {
                assert(full == walk_index_spec(*root, *s, pv, at as int, depth as int));
            }
            walk_items(root, s, pointer, at, depth)
        },
    }
}

/// Trampoline for the `allOf` search, so the recursion measure stays on the
/// depth bound alone.
fn resolve_subschema_inner<'a>(
    root: &'a JsonValue,
    schema: &'a JsonValue,
    pointer: &Vec<Vec<u8>>,
    at: usize,
    depth: usize,
) -> (r: Option<&'a JsonValue>)
    requires
        at <= pointer@.len(),
        depth <= MAX_SCHEMA_DEPTH,
    ensures
        match (r, walk_spec(*root, *schema, crate::json::path_view(*pointer), at as int,
            depth as int)) {
            (Some(s), Some(m)) => *s == m,
            (None, None) => true,
            _ => false,
        },
    decreases MAX_SCHEMA_DEPTH - depth, pointer@.len() - at, 2int,
{
    resolve_subschema_at(root, schema, pointer, at, depth)
}

/// The numeric-segment step of the walk.
fn walk_items<'a>(
    root: &'a JsonValue,
    s: &'a JsonValue,
    pointer: &Vec<Vec<u8>>,
    at: usize,
    depth: usize,
) -> (r: Option<&'a JsonValue>)
    requires
        at < pointer@.len(),
        depth < MAX_SCHEMA_DEPTH,
    ensures
        match (r, walk_index_spec(*root, *s, crate::json::path_view(*pointer), at as int,
            depth as int)) {
            (Some(v), Some(m)) => *v == m,
            (None, None) => true,
            _ => false,
        },
    decreases MAX_SCHEMA_DEPTH - depth, pointer@.len() - at, 0int,
{
    let ghost pv = crate::json::path_view(*pointer);
    let n = pointer.len();
    proof {
        assert(at < n);
        assert(pv[at as int] == pointer@[at as int]@);
    }
    let idx = match parse_index(&pointer[at]) {
        Some(idx) => idx,
        None => {
            return None;
        },
    };
    let items_key = lit_bytes("items");
    match member_of(s, &items_key) {
        Some(items) => {
            let usable = match items {
                JsonValue::Object(_) => true,
                JsonValue::Bool(_) => true,
                _ => false,
            };
            if usable {
                match resolve_subschema_at(root, items, pointer, at + 1, depth + 1) {
                    Some(hit) => {
                        return Some(hit);
                    },
                    None => {},
                }
            }
        },
        None => {},
    }
    let prefix_key = lit_bytes("prefixItems");
    match member_of(s, &prefix_key) {
        Some(JsonValue::Array(pitems)) => {
            if idx < pitems.len() {
                return resolve_subschema_at(root, &pitems[idx], pointer, at + 1, depth + 1);
            }
            None
        },
        _ => None,
    }
}

/// Navigate to the subschema at a pointer path: the result is exactly what
/// `walk_spec` addresses from the root.
pub fn resolve_subschema_at_pointer<'a>(
    root: &'a JsonValue,
    pointer: &Vec<Vec<u8>>,
) -> (r: Option<&'a JsonValue>)
    ensures
        match (r, walk_spec(*root, *root, crate::json::path_view(*pointer), 0int, 0int)) {
            (Some(s), Some(m)) => *s == m,
            (None, None) => true,
            _ => false,
        },
{
    resolve_subschema(root, root, pointer, 0)
}

/// The view of a collected property.
pub struct PropModel {
    pub name: Seq<u8>,
    pub required: bool,
    pub description: Option<Seq<u8>>,
    pub schema_type: Option<Seq<u8>>,
}

/// The view of an executable property record.
pub open spec fn prop_view(p: PropertyInfo) -> PropModel {
    PropModel {
        name: p.name@,
        required: p.required,
        description: match p.description {
            Some(d) => Some(d@),
            None => None,
        },
        schema_type: match p.schema_type {
            Some(t) => Some(t@),
            None => None,
        },
    }
}

/// The views of an executable property list.
pub open spec fn props_view(ps: Seq<PropertyInfo>) -> Seq<PropModel> {
    ps.map_values(|p: PropertyInfo| prop_view(p))
}

/// Whether a schema object's `required` array lists a name.
pub open spec fn required_has(s: JsonValue, name: Seq<u8>) -> bool {
    match member_spec(s, "required".spec_bytes()) {
        Some(JsonValue::Array(entries)) => exists|i: int|
            0 <= i < entries@.len() && ((#[trigger] entries@[i]) matches JsonValue::Text(t) && t@
                == name),
        _ => false,
    }
}

/// The one-line annotation of a property: `title: description`, or
/// whichever of the two exists.
pub open spec fn annotation_text_spec(s: JsonValue) -> Option<Seq<u8>> {
    match (text_member_spec(s, "title".spec_bytes()), text_member_spec(
        s,
        "description".spec_bytes(),
    )) {
        (Some(t), Some(d)) => Some(t + ": ".spec_bytes() + d),
        (Some(t), None) => Some(t),
        (None, Some(d)) => Some(d),
        (None, None) => None,
    }
}

/// What a property schema resolves to for reading its metadata: the target
/// of its `$ref` chain, or the schema itself when the chain breaks.
pub open spec fn resolved_of(root: JsonValue, v: JsonValue) -> JsonValue {
    match follow_ref_spec(root, v, Seq::empty(), 0) {
        Some(r) => r,
        None => v,
    }
}

/// The property record one object member contributes.
pub open spec fn prop_of_member(
    root: JsonValue,
    owner: JsonValue,
    m: crate::json::JsonMember,
) -> PropModel {
    let resolved = resolved_of(root, m.value);
    PropModel {
        name: m.key@,
        required: required_has(owner, m.key@),
        description: annotation_text_spec(resolved),
        schema_type: text_member_spec(resolved, "type".spec_bytes()),
    }
}

/// The records of one object's members — first declaration of each name
/// wins — with the new names added to the seen-set in order.
pub open spec fn props_of_members(
    root: JsonValue,
    owner: JsonValue,
    ms: Seq<crate::json::JsonMember>,
    seen: Seq<Seq<u8>>,
) -> (Seq<PropModel>, Seq<Seq<u8>>)
    decreases ms.len(),
{
    if ms.len() == 0 {
        (Seq::empty(), seen)
    } else if visited_has(seen, ms[0].key@) {
        props_of_members(root, owner, ms.drop_first(), seen)
    } else {
        let rest = props_of_members(root, owner, ms.drop_first(), seen.push(ms[0].key@));
        (seq![prop_of_member(root, owner, ms[0])] + rest.0, rest.1)
    }
}

/// The properties one schema level declares — newly seen names only — then
/// everything its `allOf` branches add, threading the seen-set,
/// depth-capped.
pub open spec fn collect_from_spec(
    root: JsonValue,
    schema: JsonValue,
    seen: Seq<Seq<u8>>,
    depth: int,
) -> (Seq<PropModel>, Seq<Seq<u8>>)
    decreases MAX_SCHEMA_DEPTH - depth, 1int, 0int,
{
    if depth >= MAX_SCHEMA_DEPTH {
        (Seq::empty(), seen)
    } else {
        match follow_ref_spec(root, schema, Seq::empty(), 0) {
            None => (Seq::empty(), seen),
            Some(s) => {
                let own = match member_spec(s, "properties".spec_bytes()) {
                    Some(JsonValue::Object(ms)) => props_of_members(root, s, ms@, seen),
                    _ => (Seq::empty(), seen),
                };
                match member_spec(s, "allOf".spec_bytes()) {
                    Some(JsonValue::Array(bs)) => {
                        let merged = collect_branches_spec(root, bs@, own.1, depth);
                        (own.0 + merged.0, merged.1)
                    },
                    _ => own,
                }
            },
        }
    }
}

/// The properties the `allOf` branches add, in branch order, threading the
/// seen-set.
pub open spec fn collect_branches_spec(
    root: JsonValue,
    bs: Seq<JsonValue>,
    seen: Seq<Seq<u8>>,
    depth: int,
) -> (Seq<PropModel>, Seq<Seq<u8>>)
    decreases MAX_SCHEMA_DEPTH - depth, 0int, bs.len(),
{
    if depth >= MAX_SCHEMA_DEPTH || bs.len() == 0 {
        (Seq::empty(), seen)
    } else {
        let first = collect_from_spec(root, bs[0], seen, depth + 1);
        let rest = collect_branches_spec(root, bs.drop_first(), first.1, depth);
        (first.0 + rest.0, rest.1)
    }
}

/// Whether a name is in the seen-set.
fn name_seen(seen: &Vec<Vec<u8>>, name: &Vec<u8>) -> (r: bool)
    ensures
        r == visited_has(seen@.map_values(|v: Vec<u8>| v@), name@),
{
    let ghost sv = seen@.map_values(|v: Vec<u8>| v@);
    let mut i: usize = 0;
    while i < seen.len()
        invariant
            i <= seen@.len(),
            sv == seen@.map_values(|v: Vec<u8>| v@),
            forall|j: int| 0 <= j < i ==> sv[j] != name@,
        decreases seen@.len() - i,
    {
        proof {
            assert(sv[i as int] == seen@[i as int]@);
        }
        if bytes_eq(&seen[i], name) {
            proof {
                assert(visited_has(sv, name@));
            }
            return true;
        }
        i = i + 1;
    }
    proof {
        assert(forall|j: int| 0 <= j < sv.len() ==> sv[j] != name@);
    }
    false
}

/// Whether a `required` array of a schema object lists a name.
fn required_lists(schema: &JsonValue, name: &Vec<u8>) -> (r: bool)
    ensures
        r == required_has(*schema, name@),
{
    let req_key = lit_bytes("required");
    match member_of(schema, &req_key) {
        Some(JsonValue::Array(entries)) => {
            let mut i: usize = 0;
            while i < entries.len()
                invariant
                    i <= entries@.len(),
                    (match member_spec(*schema, "required".spec_bytes()) {
                        Some(JsonValue::Array(es)) => es == *entries,
                        _ => false,
                    }),
                    forall|j: int|
                        0 <= j < i ==> !((#[trigger] entries@[j]) matches JsonValue::Text(t) && t@
                            == name@),
                decreases entries@.len() - i,
            {
                match &entries[i] {
                    JsonValue::Text(t) => {
                        if bytes_eq(t, name) {
                            proof {
                                assert((entries@[i as int]) matches JsonValue::Text(t0) && t0@
                                    == name@);
                                assert(required_has(*schema, name@));
                            }
                            return true;
                        }
                    },
                    _ => {},
                }
                i = i + 1;
            }
            false
        },
        _ => false,
    }
}

/// The one-line annotation of a property schema.
fn format_annotation(schema: &JsonValue) -> (r: Option<Vec<u8>>)
    ensures
        match (r, annotation_text_spec(*schema)) {
            (Some(a), Some(m)) => a@ == m,
            (None, None) => true,
            _ => false,
        },
{
    let title_key = lit_bytes("title");
    let desc_key = lit_bytes("description");
    let title = text_member(schema, &title_key);
    let description = text_member(schema, &desc_key);
    match (title, description) {
        (Some(t), Some(d)) => {
            let mut out = clone_bytes(t);
            push_str_bytes(&mut out, ": ");
            push_bytes(&mut out, d.as_slice());
            Some(out)
        },
        (Some(t), None) => Some(clone_bytes(t)),
        (None, Some(d)) => Some(clone_bytes(d)),
        (None, None) => None,
    }
}

/// Collect one schema level's newly seen properties, then everything its
/// `allOf` branches add, per `collect_from_spec`.
fn collect_properties_from(
    root: &JsonValue,
    schema: &JsonValue,
    seen: Vec<Vec<u8>>,
    depth: usize,
) -> (r: (Vec<PropertyInfo>, Vec<Vec<u8>>))
    requires
        depth <= MAX_SCHEMA_DEPTH,
    ensures
        ({
            let out = collect_from_spec(*root, *schema, seen@.map_values(|v: Vec<u8>| v@),
                depth as int);
            props_view(r.0@) == out.0 && r.1@.map_values(|v: Vec<u8>| v@) == out.1
        }),
    decreases MAX_SCHEMA_DEPTH - depth, 1int,
{
    let ghost seen0 = seen@.map_values(|v: Vec<u8>| v@);
    let ghost out = collect_from_spec(*root, *schema, seen0, depth as int);
    let mut props: Vec<PropertyInfo> = Vec::new();
    let mut seen = seen;
    proof {
        assert(props_view(props@) =~= Seq::<PropModel>::empty());
    }
    if depth >= MAX_SCHEMA_DEPTH {
        return (props, seen);
    }
    let mut visited: Vec<Vec<u8>> = Vec::new();
    proof {
        assert(visited@.map_values(|v: Vec<u8>| v@) =~= Seq::<Seq<u8>>::empty());
    }
    let s = match follow_ref(root, schema, &mut visited, 0) {
        Some(s) => s,
        None => {
            return (props, seen);
        },
    };

    let props_key = lit_bytes("properties");
    match member_of(s, &props_key) {
        Some(JsonValue::Object(members)) => {
            let ghost own = props_of_members(*root, *s, members@, seen0);
            proof {
                assert(members@.skip(0) =~= members@);
            }
            let mut i: usize = 0;
            while i < members.len()
                invariant
                    i <= members@.len(),
                    own == props_of_members(*root, *s, members@, seen0),
                    own == ({
                        let part = props_of_members(*root, *s, members@.skip(i as int),
                            seen@.map_values(|v: Vec<u8>| v@));
                        (props_view(props@) + part.0, part.1)
                    }),
                decreases members@.len() - i,
            {
                proof {
                    assert(members@.skip(i as int)[0] == members@[i as int]);
                    assert(members@.skip(i as int).drop_first() =~= members@.skip(i + 1));
                }
                let ghost seen_now = seen@.map_values(|v: Vec<u8>| v@);
                let name = &members[i].key;
                if !name_seen(&seen, name) {
                    seen.push(clone_bytes(name));
                    proof {
                        assert(seen@.map_values(|v: Vec<u8>| v@) =~= seen_now.push(
                            members@[i as int].key@,
                        ));
                    }
                    let mut prop_visited: Vec<Vec<u8>> = Vec::new();
                    proof {
                        assert(prop_visited@.map_values(|v: Vec<u8>| v@)
                            =~= Seq::<Seq<u8>>::empty());
                    }
                    let resolved = match follow_ref(root, &members[i].value, &mut prop_visited, 0) {
                        Some(rp) => rp,
                        None => &members[i].value,
                    };
                    proof {
                        assert(*resolved == resolved_of(*root, members@[i as int].value));
                    }
                    let type_key = lit_bytes("type");
                    let schema_type = match text_member(resolved, &type_key) {
                        Some(t) => Some(clone_bytes(t)),
                        None => None,
                    };
                    let ghost pv = props_view(props@);
                    props.push(
                        PropertyInfo {
                            name: clone_bytes(name),
                            required: required_lists(s, name),
                            description: format_annotation(resolved),
                            schema_type,
                        },
                    );
                    proof {
                        assert(props_view(props@) =~= pv.push(
                            prop_of_member(*root, *s, members@[i as int]),
                        ));
                        assert(pv.push(prop_of_member(*root, *s, members@[i as int]))
                            + props_of_members(*root, *s, members@.skip(i + 1),
                            seen@.map_values(|v: Vec<u8>| v@),
                        ).0 =~= pv + (seq![prop_of_member(*root, *s, members@[i as int])]
                            + props_of_members(*root, *s, members@.skip(i + 1),
                            seen@.map_values(|v: Vec<u8>| v@),
                        ).0));
                    }
                }
                i = i + 1;
            }
            proof {
                assert(members@.skip(members@.len() as int)
                    =~= Seq::<crate::json::JsonMember>::empty());
                assert(props_view(props@) + Seq::<PropModel>::empty() =~= props_view(props@));
            }
        },
        _ => {},
    }

    // allOf branches, threading the seen-set.
    let ghost own_props = props_view(props@);
    let ghost own_seen = seen@.map_values(|v: Vec<u8>| v@);
    let allof_key = lit_bytes("allOf");
    match member_of(s, &allof_key) {
        Some(JsonValue::Array(branches)) => {
            let ghost merged = collect_branches_spec(*root, branches@, own_seen, depth as int);
            proof {
                assert(branches@.skip(0) =~= branches@);
            }
            let mut bi: usize = 0;
            while bi < branches.len()
                invariant
                    bi <= branches@.len(),
                    depth < MAX_SCHEMA_DEPTH,
                    merged == collect_branches_spec(*root, branches@, own_seen, depth as int),
                    (own_props + merged.0, merged.1) == ({
                        let part = collect_branches_spec(*root, branches@.skip(bi as int),
                            seen@.map_values(|v: Vec<u8>| v@), depth as int);
                        (props_view(props@) + part.0, part.1)
                    }),
                decreases branches@.len() - bi,
            {
                proof {
                    assert(branches@.skip(bi as int)[0] == branches@[bi as int]);
                    assert(branches@.skip(bi as int).drop_first() =~= branches@.skip(bi + 1));
                }
                let ghost pv = props_view(props@);
                let (mut bprops, bseen) = collect_properties_from(
                    root,
                    &branches[bi],
                    seen,
                    depth + 1,
                );
                seen = bseen;
                props.append(&mut bprops);
                proof {
                    assert(props_view(props@) =~= pv + props_view(props@).skip(pv.len() as int));
                    assert(pv + (props_view(props@).skip(pv.len() as int)
                        + collect_branches_spec(*root, branches@.skip(bi + 1),
                        seen@.map_values(|v: Vec<u8>| v@), depth as int).0) =~= (pv
                        + props_view(props@).skip(pv.len() as int)) + collect_branches_spec(
                        *root,
                        branches@.skip(bi + 1),
                        seen@.map_values(|v: Vec<u8>| v@),
                        depth as int,
                    ).0);
                }
                bi = bi + 1;
            }
            proof {
                assert(collect_branches_spec(*root, branches@.skip(branches@.len() as int),
                    seen@.map_values(|v: Vec<u8>| v@), depth as int).0
                    =~= Seq::<PropModel>::empty());
                assert(props_view(props@) + Seq::<PropModel>::empty() =~= props_view(props@));
            }
            (props, seen)
        },
        _ => (props, seen),
    }
}

/// Collect all completable properties of the schema at a pointer path,
/// following `$ref` and merging `allOf` branches: exactly the newly seen
/// declarations at the subschema the walk addresses, first declaration of
/// each name winning, with its `required` flag read from the declaring
/// level.
pub fn collect_properties(root: &JsonValue, pointer: &Vec<Vec<u8>>) -> (r: Vec<PropertyInfo>)
    ensures
        match walk_spec(*root, *root, crate::json::path_view(*pointer), 0int, 0int) {
            None => r@.len() == 0,
            Some(s) => props_view(r@) == collect_from_spec(*root, s, Seq::empty(), 0int).0,
        },
{
    let sub = match resolve_subschema_at_pointer(root, pointer) {
        Some(s) => s,
        None => {
            return Vec::new();
        },
    };
    let seen: Vec<Vec<u8>> = Vec::new();
    proof {
        assert(seen@.map_values(|v: Vec<u8>| v@) =~= Seq::<Seq<u8>>::empty());
    }
    let (props, _) = collect_properties_from(root, sub, seen, 0);
    props
}

/// The view of a value suggestion.
pub enum SuggestionModel {
    PickEnum(JsonValue),
    PickConst(JsonValue),
    PickBool,
    PickNull,
}

/// The view of an executable suggestion.
pub open spec fn suggestion_view(s: ValueSuggestion) -> SuggestionModel {
    match s {
        ValueSuggestion::EnumChoice(v) => SuggestionModel::PickEnum(*v),
        ValueSuggestion::ConstValue(v) => SuggestionModel::PickConst(*v),
        ValueSuggestion::BooleanToggle => SuggestionModel::PickBool,
        ValueSuggestion::NullValue => SuggestionModel::PickNull,
    }
}

/// What a property's subschema suggests: its `const` value alone when one
/// exists, else every `enum` member in order, else what a `boolean` or
/// `null` type implies, else nothing.
pub open spec fn value_suggestions_spec(sub: JsonValue) -> Seq<SuggestionModel> {
    match member_spec(sub, "const".spec_bytes()) {
        Some(c) => seq![SuggestionModel::PickConst(c)],
        None => match member_spec(sub, "enum".spec_bytes()) {
            Some(JsonValue::Array(options)) => options@.map_values(
                |o: JsonValue| SuggestionModel::PickEnum(o),
            ),
            _ => match text_member_spec(sub, "type".spec_bytes()) {
                Some(t) => if t == "boolean".spec_bytes() {
                    seq![SuggestionModel::PickBool]
                } else if t == "null".spec_bytes() {
                    seq![SuggestionModel::PickNull]
                } else {
                    Seq::empty()
                },
                None => Seq::empty(),
            },
        },
    }
}

/// Collect value suggestions for one property under a pointer path: exactly
/// what `value_suggestions_spec` reads from the subschema the walk
/// addresses at the pointer extended by the property name.
pub fn collect_values<'a>(
    root: &'a JsonValue,
    pointer: &Vec<Vec<u8>>,
    property_name: &Vec<u8>,
) -> (r: Vec<ValueSuggestion<'a>>)
    ensures
        ({
            let full = crate::json::path_view(*pointer).push(property_name@);
            match walk_spec(*root, *root, full, 0int, 0int) {
                None => r@.len() == 0,
                Some(sub) => r@.map_values(|s: ValueSuggestion| suggestion_view(s))
                    == value_suggestions_spec(sub),
            }
        }),
{
    let ghost full_view = crate::json::path_view(*pointer).push(property_name@);
    let mut full: Vec<Vec<u8>> = Vec::new();
    let mut i: usize = 0;
    while i < pointer.len()
        invariant
            i <= pointer@.len(),
            full@.len() == i,
            forall|j: int| 0 <= j < i ==> (#[trigger] full@[j])@ == pointer@[j]@,
        decreases pointer@.len() - i,
    {
        full.push(clone_bytes(&pointer[i]));
        i = i + 1;
    }
    full.push(clone_bytes(property_name));
    proof {
        assert forall|j: int| 0 <= j < full@.len() implies #[trigger] crate::json::path_view(
            full,
        )[j] == full_view[j] by {
            assert(crate::json::path_view(full)[j] == full@[j]@);
            if j < pointer@.len() {
                assert(full_view[j] == crate::json::path_view(*pointer)[j]);
                assert(crate::json::path_view(*pointer)[j] == pointer@[j]@);
            }
        }
        assert(crate::json::path_view(full) =~= full_view);
    }

    let sub = match resolve_subschema_at_pointer(root, &full) {
        Some(s) => s,
        None => {
            return Vec::new();
        },
    };
    let mut out: Vec<ValueSuggestion<'a>> = Vec::new();
    let const_key = lit_bytes("const");
    match member_of(sub, &const_key) {
        Some(c) => {
            out.push(ValueSuggestion::ConstValue(c));
            proof {
                assert(out@.map_values(|s: ValueSuggestion| suggestion_view(s))
                    =~= value_suggestions_spec(*sub));
            }
            return out;
        },
        None => {},
    }
    let enum_key = lit_bytes("enum");
    match member_of(sub, &enum_key) {
        Some(JsonValue::Array(options)) => {
            let mut k: usize = 0;
            while k < options.len()
                invariant
                    k <= options@.len(),
                    out@.len() == k,
                    forall|j: int|
                        0 <= j < k ==> suggestion_view(#[trigger] out@[j])
                            == SuggestionModel::PickEnum(options@[j]),
                decreases options@.len() - k,
            {
                out.push(ValueSuggestion::EnumChoice(&options[k]));
                k = k + 1;
            }
            proof {
                assert forall|j: int| #![trigger out@[j]] 0 <= j < out@.len()
                    implies out@.map_values(|s: ValueSuggestion| suggestion_view(s))[j]
                    == options@.map_values(|o: JsonValue| SuggestionModel::PickEnum(o))[j] by {
                    assert(suggestion_view(out@[j]) == SuggestionModel::PickEnum(options@[j]));
                }
                assert(out@.map_values(|s: ValueSuggestion| suggestion_view(s)) =~= options@.map_values(
                    |o: JsonValue| SuggestionModel::PickEnum(o),
                ));
            }
            return out;
        },
        _ => {},
    }
    let type_key = lit_bytes("type");
    match text_member(sub, &type_key) {
        Some(t) => {
            let boolean = lit_bytes("boolean");
            let null_name = lit_bytes("null");
            if bytes_eq(t, &boolean) {
                out.push(ValueSuggestion::BooleanToggle);
            } else if bytes_eq(t, &null_name) {
                out.push(ValueSuggestion::NullValue);
            }
            proof {
                assert(out@.map_values(|s: ValueSuggestion| suggestion_view(s))
                    =~= value_suggestions_spec(*sub));
            }
        },
        None => {
            proof {
                assert(out@.map_values(|s: ValueSuggestion| suggestion_view(s))
                    =~= value_suggestions_spec(*sub));
            }
        },
    }
    out
}

} // verus!
