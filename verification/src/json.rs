//! The library's own model of parsed JSON documents.
//!
//! A document is represented twice: as a position-free value tree
//! ([`JsonValue`]) for schema walking and field extraction, and as a
//! position-carrying tree ([`JsonAst`]) whose every node remembers the byte
//! span it was parsed from, for anchoring diagnostics. Numbers keep their
//! source text, so no floating point is involved.

use vstd::prelude::*;
use vstd::string::StringSliceAdditionalSpecFns;

use crate::bytestr::{bytes_eq, clone_bytes, dec_rep, usize_to_dec};

verus! {

/// A half-open byte range within the source text.
#[derive(Clone, Copy, Debug, PartialEq, Eq)]
pub struct Span {
    pub start: usize,
    pub end: usize,
}

/// One step of a JSON Pointer: a property name or an array index.
#[derive(Clone, Debug, PartialEq, Eq)]
pub enum PathSeg {
    Key(Vec<u8>),
    Index(usize),
}

/// A parsed JSON value without positions. Object members keep their source
/// order; a number keeps its source text.
#[derive(Debug, PartialEq, Eq)]
pub enum JsonValue {
    Null,
    Bool(bool),
    Number(Vec<u8>),
    Text(Vec<u8>),
    Array(Vec<JsonValue>),
    Object(Vec<JsonMember>),
}

/// A key/value pair of a JSON object.
#[derive(Debug, PartialEq, Eq)]
pub struct JsonMember {
    pub key: Vec<u8>,
    pub value: JsonValue,
}

/// A parsed JSON value with byte spans: enough structure to resolve a JSON
/// Pointer to the span of a value or of a property key, and to find the node
/// at a byte offset.
pub enum JsonAst {
    Object { span: Span, members: Vec<AstMember> },
    Array { span: Span, elements: Vec<JsonAst> },
    Leaf { span: Span },
}

/// An object member of the positioned tree: the key text, the span of the key
/// token, and the member's value.
pub struct AstMember {
    pub key: Vec<u8>,
    pub key_span: Span,
    pub value: JsonAst,
}

/// The byte span of a node.
pub open spec fn span_of(ast: JsonAst) -> Span {
    match ast {
        JsonAst::Object { span, .. } => span,
        JsonAst::Array { span, .. } => span,
        JsonAst::Leaf { span } => span,
    }
}

/// Whether a byte offset falls inside a span.
pub open spec fn in_span(span: Span, offset: usize) -> bool {
    span.start <= offset < span.end
}

impl JsonAst {
    /// The byte span this node was parsed from.
    pub fn span(&self) -> (r: Span)
        ensures
            r == span_of(*self),
    {
        match self {
            JsonAst::Object { span, .. } => *span,
            JsonAst::Array { span, .. } => *span,
            JsonAst::Leaf { span } => *span,
        }
    }
}

/// The index of the first object member whose key is `key`, if any.
pub open spec fn ast_member_index(members: Seq<AstMember>, key: Seq<u8>) -> Option<int>
    decreases members.len(),
{
    if members.len() == 0 {
        None
    } else if members[0].key@ == key {
        Some(0int)
    } else {
        match ast_member_index(members.drop_first(), key) {
            Some(i) => Some(i + 1),
            None => None,
        }
    }
}

/// Characterization of `ast_member_index`: it is the first match.
pub proof fn lemma_ast_member_index(members: Seq<AstMember>, key: Seq<u8>)
    ensures
        match ast_member_index(members, key) {
            Some(i) => 0 <= i < members.len() && members[i].key@ == key && (forall|j: int|
                0 <= j < i ==> members[j].key@ != key),
            None => forall|j: int| 0 <= j < members.len() ==> members[j].key@ != key,
        },
    decreases members.len(),
{
    if members.len() == 0 {
    } else if members[0].key@ == key {
    } else {
        let tail = members.drop_first();
        lemma_ast_member_index(tail, key);
        match ast_member_index(tail, key) {
            Some(i) => {
                assert(tail[i] == members[i + 1]);
                assert forall|j: int| 0 <= j < i + 1 implies members[j].key@ != key by {
                    if j > 0 {
                        assert(tail[j - 1] == members[j]);
                    }
                }
            },
            None => {
                assert forall|j: int| 0 <= j < members.len() implies members[j].key@ != key by {
                    if j > 0 {
                        assert(tail[j - 1] == members[j]);
                    }
                }
            },
        }
    }
}

/// Find the first object member with the given key.
pub fn find_ast_member(members: &Vec<AstMember>, key: &Vec<u8>) -> (r: Option<usize>)
    ensures
        match r {
            Some(i) => ast_member_index(members@, key@) == Some(i as int) && (i as int)
                < members@.len() && members@[i as int].key@ == key@,
            None => ast_member_index(members@, key@) is None,
        },
{
    proof {
        lemma_ast_member_index(members@, key@);
    }
    let mut i: usize = 0;
    while i < members.len()
        invariant
            i <= members@.len(),
            forall|j: int| 0 <= j < i ==> members@[j].key@ != key@,
            match ast_member_index(members@, key@) {
                Some(k) => 0 <= k < members@.len() && members@[k].key@ == key@ && (forall|j: int|
                    0 <= j < k ==> members@[j].key@ != key@),
                None => forall|j: int| 0 <= j < members@.len() ==> members@[j].key@ != key@,
            },
        decreases members@.len() - i,
    {
        if bytes_eq(&members[i].key, key) {
            return Some(i);
        }
        i = i + 1;
    }
    None
}

/// The span of the value that a JSON Pointer addresses: walk the tree one
/// segment at a time; an empty pointer addresses the whole node. Unresolvable
/// segments give nothing.
pub open spec fn resolve_pointer_spec(ast: JsonAst, segs: Seq<PathSeg>) -> Option<Span>
    decreases segs.len(),
{
    if segs.len() == 0 {
        Some(span_of(ast))
    } else {
        match segs[0] {
            PathSeg::Key(k) => match ast {
                JsonAst::Object { members, .. } => match ast_member_index(members@, k@) {
                    Some(i) => resolve_pointer_spec(members@[i].value, segs.drop_first()),
                    None => None,
                },
                _ => None,
            },
            PathSeg::Index(ix) => match ast {
                JsonAst::Array { elements, .. } => if (ix as int) < elements@.len() {
                    resolve_pointer_spec(elements@[ix as int], segs.drop_first())
                } else {
                    None
                },
                _ => None,
            },
        }
    }
}

/// The span of the key token of the property a JSON Pointer addresses: like
/// `resolve_pointer_spec`, but the final segment must be a property name, and
/// its key token's span is returned. An empty pointer has no key.
pub open spec fn resolve_pointer_key_spec(ast: JsonAst, segs: Seq<PathSeg>) -> Option<Span>
    decreases segs.len(),
{
    if segs.len() == 0 {
        None
    } else {
        match segs[0] {
            PathSeg::Key(k) => match ast {
                JsonAst::Object { members, .. } => match ast_member_index(members@, k@) {
                    Some(i) => if segs.len() == 1 {
                        Some(members@[i].key_span)
                    } else {
                        resolve_pointer_key_spec(members@[i].value, segs.drop_first())
                    },
                    None => None,
                },
                _ => None,
            },
            PathSeg::Index(ix) => match ast {
                JsonAst::Array { elements, .. } => if segs.len() == 1 {
                    None
                } else if (ix as int) < elements@.len() {
                    resolve_pointer_key_spec(elements@[ix as int], segs.drop_first())
                } else {
                    None
                },
                _ => None,
            },
        }
    }
}

/// Resolve a JSON Pointer to the byte span of the value it addresses.
pub fn resolve_pointer(ast: &JsonAst, segments: &Vec<PathSeg>) -> (r: Option<Span>)
    ensures
        r == resolve_pointer_spec(*ast, segments@),
{
    let mut current: &JsonAst = ast;
    let mut j: usize = 0;
    proof {
        assert(segments@.skip(0) =~= segments@);
    }
    while j < segments.len()
        invariant
            j <= segments@.len(),
            resolve_pointer_spec(*ast, segments@) == resolve_pointer_spec(
                *current,
                segments@.skip(j as int),
            ),
        decreases segments@.len() - j,
    {
        proof {
            assert(segments@.skip(j as int)[0] == segments@[j as int]);
            assert(segments@.skip(j as int).drop_first() =~= segments@.skip(j + 1));
        }
        match &segments[j] {
            PathSeg::Key(k) => {
                match current {
                    JsonAst::Object { members, .. } => {
                        match find_ast_member(members, k) {
                            Some(i) => {
                                current = &members[i].value;
                            },
                            None => {
                                return None;
                            },
                        }
                    },
                    _ => {
                        return None;
                    },
                }
            },
            PathSeg::Index(ix) => {
                match current {
                    JsonAst::Array { elements, .. } => {
                        if *ix < elements.len() {
                            current = &elements[*ix];
                        } else {
                            return None;
                        }
                    },
                    _ => {
                        return None;
                    },
                }
            },
        }
        j = j + 1;
    }
    proof {
        assert(segments@.skip(segments@.len() as int) =~= Seq::<PathSeg>::empty());
    }
    Some(current.span())
}

/// Resolve a JSON Pointer to the byte span of the key token of the property
/// it addresses. Array indices have no key token, so a pointer ending in an
/// index gives nothing, as does an empty pointer.
pub fn resolve_pointer_key(ast: &JsonAst, segments: &Vec<PathSeg>) -> (r: Option<Span>)
    ensures
        r == resolve_pointer_key_spec(*ast, segments@),
{
    let mut current: &JsonAst = ast;
    let mut j: usize = 0;
    proof {
        assert(segments@.skip(0) =~= segments@);
    }
    while j < segments.len()
        invariant
            j <= segments@.len(),
            resolve_pointer_key_spec(*ast, segments@) == resolve_pointer_key_spec(
                *current,
                segments@.skip(j as int),
            ),
        decreases segments@.len() - j,
    {
        proof {
            assert(segments@.skip(j as int)[0] == segments@[j as int]);
            assert(segments@.skip(j as int).drop_first() =~= segments@.skip(j + 1));
            assert(segments@.skip(j as int).len() == segments@.len() - j);
        }
        let is_last = j + 1 == segments.len();
        match &segments[j] {
            PathSeg::Key(k) => {
                match current {
                    JsonAst::Object { members, .. } => {
                        match find_ast_member(members, k) {
                            Some(i) => {
                                if is_last {
                                    return Some(members[i].key_span);
                                }
                                current = &members[i].value;
                            },
                            None => {
                                return None;
                            },
                        }
                    },
                    _ => {
                        return None;
                    },
                }
            },
            PathSeg::Index(ix) => {
                if is_last {
                    return None;
                }
                match current {
                    JsonAst::Array { elements, .. } => {
                        if *ix < elements.len() {
                            current = &elements[*ix];
                        } else {
                            return None;
                        }
                    },
                    _ => {
                        return None;
                    },
                }
            },
        }
        j = j + 1;
    }
    None
}

/// The node a JSON Pointer addresses, if every segment resolves.
pub open spec fn node_at_spec(ast: JsonAst, segs: Seq<PathSeg>) -> Option<JsonAst>
    decreases segs.len(),
{
    if segs.len() == 0 {
        Some(ast)
    } else {
        match segs[0] {
            PathSeg::Key(k) => match ast {
                JsonAst::Object { members, .. } => match ast_member_index(members@, k@) {
                    Some(i) => node_at_spec(members@[i].value, segs.drop_first()),
                    None => None,
                },
                _ => None,
            },
            PathSeg::Index(ix) => match ast {
                JsonAst::Array { elements, .. } => if (ix as int) < elements@.len() {
                    node_at_spec(elements@[ix as int], segs.drop_first())
                } else {
                    None
                },
                _ => None,
            },
        }
    }
}

/// The number of elements of the array a JSON Pointer addresses, when it
/// addresses an array.
pub open spec fn array_len_spec(ast: JsonAst, segs: Seq<PathSeg>) -> Option<int> {
    match node_at_spec(ast, segs) {
        Some(JsonAst::Array { elements, .. }) => Some(elements@.len() as int),
        _ => None,
    }
}

/// How many elements the array addressed by a JSON Pointer has, if the
/// pointer addresses an array at all.
pub fn array_len_at(ast: &JsonAst, segments: &Vec<PathSeg>) -> (r: Option<usize>)
    ensures
        match (r, array_len_spec(*ast, segments@)) {
            (Some(n), Some(m)) => n as int == m,
            (None, None) => true,
            _ => false,
        },
{
    let mut current: &JsonAst = ast;
    let mut j: usize = 0;
    proof {
        assert(segments@.skip(0) =~= segments@);
    }
    while j < segments.len()
        invariant
            j <= segments@.len(),
            node_at_spec(*ast, segments@) == node_at_spec(*current, segments@.skip(j as int)),
        decreases segments@.len() - j,
    {
        proof {
            assert(segments@.skip(j as int)[0] == segments@[j as int]);
            assert(segments@.skip(j as int).drop_first() =~= segments@.skip(j + 1));
        }
        match &segments[j] {
            PathSeg::Key(k) => {
                match current {
                    JsonAst::Object { members, .. } => {
                        match find_ast_member(members, k) {
                            Some(i) => {
                                current = &members[i].value;
                            },
                            None => {
                                return None;
                            },
                        }
                    },
                    _ => {
                        return None;
                    },
                }
            },
            PathSeg::Index(ix) => {
                match current {
                    JsonAst::Array { elements, .. } => {
                        if *ix < elements.len() {
                            current = &elements[*ix];
                        } else {
                            return None;
                        }
                    },
                    _ => {
                        return None;
                    },
                }
            },
        }
        j = j + 1;
    }
    proof {
        assert(segments@.skip(segments@.len() as int) =~= Seq::<PathSeg>::empty());
    }
    match current {
        JsonAst::Array { elements, .. } => Some(elements.len()),
        _ => None,
    }
}

/// Where a byte offset lands in a node: the pointer path (property names and
/// decimal indices) and span of the key or value containing it. Offsets on
/// structural tokens or whitespace land nowhere.
pub open spec fn locate_offset_spec(ast: JsonAst, offset: usize) -> Option<(Seq<Seq<u8>>, Span)>
    decreases ast,
{
    match ast {
        JsonAst::Leaf { span } => Some((Seq::empty(), span)),
        JsonAst::Object { members, .. } => locate_offset_members(members@, offset),
        JsonAst::Array { elements, .. } => locate_offset_elements(elements@, offset, 0),
    }
}

/// The first member whose key token or value contains the offset decides the
/// result: a key hit names the key itself; a value hit descends.
pub open spec fn locate_offset_members(ms: Seq<AstMember>, offset: usize) -> Option<
    (Seq<Seq<u8>>, Span),
>
    decreases ms,
{
    if ms.len() == 0 {
        None
    } else if in_span(ms[0].key_span, offset) {
        Some((seq![ms[0].key@], ms[0].key_span))
    } else if in_span(span_of(ms[0].value), offset) {
        match locate_offset_spec(ms[0].value, offset) {
            Some(hit) => Some((seq![ms[0].key@] + hit.0, hit.1)),
            None => None,
        }
    } else {
        locate_offset_members(ms.drop_first(), offset)
    }
}

/// The first element whose span contains the offset decides the result; its
/// decimal index joins the path.
pub open spec fn locate_offset_elements(es: Seq<JsonAst>, offset: usize, base: int) -> Option<
    (Seq<Seq<u8>>, Span),
>
    decreases es,
{
    if es.len() == 0 {
        None
    } else if in_span(span_of(es[0]), offset) {
        match locate_offset_spec(es[0], offset) {
            Some(hit) => Some((seq![dec_rep(base)] + hit.0, hit.1)),
            None => None,
        }
    } else {
        locate_offset_elements(es.drop_first(), offset, base + 1)
    }
}

/// The view of an executable pointer path.
pub open spec fn path_view(p: Vec<Vec<u8>>) -> Seq<Seq<u8>> {
    p@.map_values(|v: Vec<u8>| v@)
}

fn locate_offset_walk(node: &JsonAst, offset: usize) -> (r: Option<(Vec<Vec<u8>>, Span)>)
    ensures
        match (r, locate_offset_spec(*node, offset)) {
            (Some(hit), Some(s)) => path_view(hit.0) == s.0 && hit.1 == s.1,
            (None, None) => true,
            _ => false,
        },
    decreases *node,
{
    match node {
        JsonAst::Leaf { span } => {
            let path: Vec<Vec<u8>> = Vec::new();
            proof {
                assert(path_view(path) =~= Seq::<Seq<u8>>::empty());
            }
            Some((path, *span))
        },
        JsonAst::Object { members, .. } => {
            let ghost all = members@;
            let mut i: usize = 0;
            proof {
                assert(members@.skip(0) =~= members@);
            }
            while i < members.len()
                invariant
                    i <= members@.len(),
                    locate_offset_spec(*node, offset) == locate_offset_members(
                        members@.skip(i as int),
                        offset,
                    ),
                    node is Object,
                    members@ == (*node)->Object_members@,
                decreases members@.len() - i,
            {
                proof {
                    assert(members@.skip(i as int)[0] == members@[i as int]);
                    assert(members@.skip(i as int).drop_first() =~= members@.skip(i + 1));
                }
                let m = &members[i];
                if m.key_span.start <= offset && offset < m.key_span.end {
                    let mut path: Vec<Vec<u8>> = Vec::new();
                    path.push(clone_bytes(&m.key));
                    proof {
                        assert(path_view(path) =~= seq![members@[i as int].key@]);
                    }
                    return Some((path, m.key_span));
                }
                let vspan = m.value.span();
                if vspan.start <= offset && offset < vspan.end {
                    proof {
                        assert(decreases_to!(*node => (*node)->Object_members));
                        assert(decreases_to!((*node)->Object_members => (*node)->Object_members@));
                        assert(decreases_to!((*node)->Object_members@ => (*node)->Object_members@[i
                            as int]));
                        assert((*node)->Object_members@[i as int] == members@[i as int]);
                        assert(decreases_to!(*node => members@[i as int].value));
                    }
                    match locate_offset_walk(&members[i].value, offset) {
                        Some((sub, sp)) => {
                            let ghost pre = sub@;
                            let mut path = sub;
                            let kc = clone_bytes(&m.key);
                            path.insert(0, kc);
                            proof {
                                let ghost target = seq![members@[i as int].key@] + pre.map_values(
                                    |v: Vec<u8>| v@,
                                );
                                assert forall|j: int| 0 <= j < path@.len() implies path_view(
                                    path,
                                )[j] == target[j] by {
                                    if j == 0 {
                                        assert(path@[0] == kc);
                                    } else {
                                        assert(path@[j] == pre[j - 1]);
                                    }
                                }
                                assert(path_view(path) =~= target);
                            }
                            return Some((path, sp));
                        },
                        None => {
                            return None;
                        },
                    }
                }
                i = i + 1;
            }
            None
        },
        JsonAst::Array { elements, .. } => {
            let mut i: usize = 0;
            proof {
                assert(elements@.skip(0) =~= elements@);
            }
            while i < elements.len()
                invariant
                    i <= elements@.len(),
                    locate_offset_spec(*node, offset) == locate_offset_elements(
                        elements@.skip(i as int),
                        offset,
                        i as int,
                    ),
                    node is Array,
                    elements@ == (*node)->Array_elements@,
                decreases elements@.len() - i,
            {
                proof {
                    assert(elements@.skip(i as int)[0] == elements@[i as int]);
                    assert(elements@.skip(i as int).drop_first() =~= elements@.skip(i + 1));
                }
                let espan = elements[i].span();
                if espan.start <= offset && offset < espan.end {
                    proof {
                        assert(decreases_to!(*node => (*node)->Array_elements));
                        assert(decreases_to!((*node)->Array_elements => (*node)->Array_elements@));
                        assert(decreases_to!((*node)->Array_elements@ => (*node)->Array_elements@[i
                            as int]));
                        assert((*node)->Array_elements@[i as int] == elements@[i as int]);
                        assert(decreases_to!(*node => elements@[i as int]));
                    }
                    match locate_offset_walk(&elements[i], offset) {
                        Some((sub, sp)) => {
                            let ghost pre = sub@;
                            let mut path = sub;
                            let ic = usize_to_dec(i);
                            path.insert(0, ic);
                            proof {
                                let ghost target = seq![dec_rep(i as int)] + pre.map_values(
                                    |v: Vec<u8>| v@,
                                );
                                assert forall|j: int| 0 <= j < path@.len() implies path_view(
                                    path,
                                )[j] == target[j] by {
                                    if j == 0 {
                                        assert(path@[0] == ic);
                                    } else {
                                        assert(path@[j] == pre[j - 1]);
                                    }
                                }
                                assert(path_view(path) =~= target);
                            }
                            return Some((path, sp));
                        },
                        None => {
                            return None;
                        },
                    }
                }
                i = i + 1;
            }
            None
        },
    }
}

/// Find the JSON Pointer path and byte span of whichever key or value of the
/// tree contains the given byte offset. Offsets outside the root node, or on
/// structural tokens, separators or whitespace, land nowhere.
pub fn offset_to_pointer(ast: &JsonAst, offset: usize) -> (r: Option<(Vec<Vec<u8>>, Span)>)
    ensures
        !in_span(span_of(*ast), offset) ==> r is None,
        in_span(span_of(*ast), offset) ==> match (r, locate_offset_spec(*ast, offset)) {
            (Some(hit), Some(s)) => path_view(hit.0) == s.0 && hit.1 == s.1,
            (None, None) => true,
            _ => false,
        },
{
    let span = ast.span();
    if offset < span.start || offset >= span.end {
        return None;
    }
    locate_offset_walk(ast, offset)
}

/// The index of the first member of a value object whose key is `key`.
pub open spec fn value_member_index(members: Seq<JsonMember>, key: Seq<u8>) -> Option<int>
    decreases members.len(),
{
    if members.len() == 0 {
        None
    } else if members[0].key@ == key {
        Some(0int)
    } else {
        match value_member_index(members.drop_first(), key) {
            Some(i) => Some(i + 1),
            None => None,
        }
    }
}

/// Characterization of `value_member_index`: it is the first match.
pub proof fn lemma_value_member_index(members: Seq<JsonMember>, key: Seq<u8>)
    ensures
        match value_member_index(members, key) {
            Some(i) => 0 <= i < members.len() && members[i].key@ == key && (forall|j: int|
                0 <= j < i ==> members[j].key@ != key),
            None => forall|j: int| 0 <= j < members.len() ==> members[j].key@ != key,
        },
    decreases members.len(),
{
    if members.len() == 0 {
    } else if members[0].key@ == key {
    } else {
        let tail = members.drop_first();
        lemma_value_member_index(tail, key);
        match value_member_index(tail, key) {
            Some(i) => {
                assert(tail[i] == members[i + 1]);
                assert forall|j: int| 0 <= j < i + 1 implies members[j].key@ != key by {
                    if j > 0 {
                        assert(tail[j - 1] == members[j]);
                    }
                }
            },
            None => {
                assert forall|j: int| 0 <= j < members.len() implies members[j].key@ != key by {
                    if j > 0 {
                        assert(tail[j - 1] == members[j]);
                    }
                }
            },
        }
    }
}

/// Look up a member of a value object by key, first match.
pub fn object_get<'a>(members: &'a Vec<JsonMember>, key: &Vec<u8>) -> (r: Option<&'a JsonValue>)
    ensures
        match (r, value_member_index(members@, key@)) {
            (Some(v), Some(i)) => *v == members@[i].value,
            (None, None) => true,
            _ => false,
        },
{
    proof {
        lemma_value_member_index(members@, key@);
    }
    let mut i: usize = 0;
    while i < members.len()
        invariant
            i <= members@.len(),
            forall|j: int| 0 <= j < i ==> members@[j].key@ != key@,
            match value_member_index(members@, key@) {
                Some(k) => 0 <= k < members@.len() && members@[k].key@ == key@ && (forall|j: int|
                    0 <= j < k ==> members@[j].key@ != key@),
                None => forall|j: int| 0 <= j < members@.len() ==> members@[j].key@ != key@,
            },
        decreases members@.len() - i,
    {
        if bytes_eq(&members[i].key, key) {
            return Some(&members[i].value);
        }
        i = i + 1;
    }
    None
}

/// What the `$schema` member of a document names, if the document is an
/// object with a string-valued `$schema` member.
pub open spec fn schema_field_spec(value: JsonValue) -> Option<Seq<u8>> {
    match value {
        JsonValue::Object(members) => match value_member_index(
            members@,
            "$schema".spec_bytes(),
        ) {
            Some(i) => match members@[i].value {
                JsonValue::Text(s) => Some(s@),
                _ => None,
            },
            None => None,
        },
        _ => None,
    }
}

/// Extract the string value of a document's `$schema` member, if present.
pub fn extract_schema_field(value: &JsonValue) -> (r: Option<Vec<u8>>)
    ensures
        match (r, schema_field_spec(*value)) {
            (Some(v), Some(s)) => v@ == s,
            (None, None) => true,
            _ => false,
        },
{
    let key = crate::bytestr::lit_bytes("$schema");
    match value {
        JsonValue::Object(members) => {
            match object_get(members, &key) {
                Some(JsonValue::Text(s)) => Some(clone_bytes(s)),
                _ => None,
            }
        },
        _ => None,
    }
}

} // verus!
