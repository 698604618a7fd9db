//! Byte-accurate position mapping for document text.
//!
//! Document text is handled as UTF-8 bytes. A precomputed table of line-start
//! offsets supports conversion between byte offsets, 1-based (line, column)
//! pairs, and LSP-style positions in either UTF-8 or UTF-16 column units.

use vstd::prelude::*;

verus! {

/// The byte value of a line feed.
pub const LINE_FEED: u8 = 10;

/// The line-start table of a text: offset 0, then one entry just past each
/// line feed, in increasing order.
pub open spec fn line_starts_spec(s: Seq<u8>) -> Seq<int>
    decreases s.len(),
{
    if s.len() == 0 {
        seq![0int]
    } else {
        let pre = line_starts_spec(s.drop_last());
        if s.last() == LINE_FEED {
            pre.push(s.len() as int)
        } else {
            pre
        }
    }
}

/// A well-formed line-start table: non-empty, begins at 0, strictly increasing.
pub open spec fn valid_line_starts(starts: Seq<usize>) -> bool {
    &&& starts.len() >= 1
    &&& starts[0] == 0
    &&& forall|i: int, j: int| 0 <= i < j < starts.len() ==> starts[i] < starts[j]
}

/// `li` is the 0-based line index on which byte `offset` falls: the table
/// entry at `li` is at or before the offset, and the next entry (if any) is
/// past it.
pub open spec fn is_line_hit(starts: Seq<usize>, offset: usize, li: int) -> bool {
    &&& 0 <= li < starts.len()
    &&& starts[li] <= offset
    &&& (li + 1 == starts.len() || (offset as int) < starts[li + 1])
}

/// `line_starts_spec` always yields a well-formed table whose entries lie
/// within the text.
pub proof fn lemma_line_starts_spec_wf(s: Seq<u8>)
    ensures
        line_starts_spec(s).len() >= 1,
        line_starts_spec(s)[0] == 0,
        forall|i: int, j: int|
            0 <= i < j < line_starts_spec(s).len() ==> #[trigger] line_starts_spec(s)[i]
                < #[trigger] line_starts_spec(s)[j],
        forall|i: int|
            0 <= i < line_starts_spec(s).len() ==> 0 <= #[trigger] line_starts_spec(s)[i]
                <= s.len(),
    decreases s.len(),
{
    if s.len() > 0 {
        lemma_line_starts_spec_wf(s.drop_last());
    }
}

/// At most one line index fits a given offset.
pub proof fn lemma_line_hit_unique(starts: Seq<usize>, offset: usize, a: int, b: int)
    requires
        valid_line_starts(starts),
        is_line_hit(starts, offset, a),
        is_line_hit(starts, offset, b),
    ensures
        a == b,
{
    if a < b {
        assert(starts[a + 1] <= starts[b]);
    }
    if b < a {
        assert(starts[b + 1] <= starts[a]);
    }
}

/// Precompute the byte offset at which each line begins: offset 0, then one
/// entry just past each line feed.
pub fn compute_line_starts(source: &[u8]) -> (starts: Vec<usize>)
    requires
        source@.len() < usize::MAX,
    ensures
        starts@.map_values(|v: usize| v as int) == line_starts_spec(source@),
        valid_line_starts(starts@),
{
    let mut starts: Vec<usize> = Vec::new();
    starts.push(0);
    assert(starts@.map_values(|v: usize| v as int) =~= line_starts_spec(source@.take(0)));
    let mut i: usize = 0;
    while i < source.len()
        invariant
            i <= source@.len() < usize::MAX,
            starts@.map_values(|v: usize| v as int) == line_starts_spec(source@.take(i as int)),
        decreases source@.len() - i,
    {
        if source[i] == LINE_FEED {
            starts.push(i + 1);
        }
        proof {
            assert(source@.take(i + 1).drop_last() =~= source@.take(i as int));
            assert(source@.take(i + 1).last() == source@[i as int]);
            assert(starts@.map_values(|v: usize| v as int) =~= line_starts_spec(
                source@.take(i + 1),
            ));
        }
        i = i + 1;
    }
    proof {
        assert(source@.take(source@.len() as int) =~= source@);
        lemma_line_starts_spec_wf(source@);
        let ghost m = starts@.map_values(|v: usize| v as int);
        assert(starts@.len() >= 1 && starts@[0] == 0) by {
            assert(m[0] == starts@[0]);
        }
        assert forall|a: int, b: int| 0 <= a < b < starts@.len() implies starts@[a] < starts@[b] by {
            assert(m[a] < m[b]);
            assert(m[a] == starts@[a] as int);
            assert(m[b] == starts@[b] as int);
        }
    }
    starts
}

/// Convert a byte offset to a 1-based (line, column) pair: the line whose
/// start is nearest at or before the offset, and the 1-based byte column
/// within that line.
pub fn offset_to_line_col(line_starts: &Vec<usize>, offset: usize) -> (r: (usize, usize))
    requires
        valid_line_starts(line_starts@),
        offset < usize::MAX,
    ensures
        is_line_hit(line_starts@, offset, r.0 - 1),
        1 <= r.0 <= line_starts@.len(),
        r.1 == offset - line_starts@[r.0 - 1] + 1,
{
    let mut lo: usize = 0;
    let mut hi: usize = line_starts.len();
    while lo + 1 < hi
        invariant
            valid_line_starts(line_starts@),
            lo < hi <= line_starts@.len(),
            line_starts@[lo as int] <= offset,
            hi == line_starts@.len() || (offset as int) < line_starts@[hi as int],
        decreases hi - lo,
    {
        let mid = lo + (hi - lo) / 2;
        if line_starts[mid] <= offset {
            lo = mid;
        } else {
            hi = mid;
        }
    }
    let col = offset - line_starts[lo];
    (lo + 1, col + 1)
}

/// Inverse of `offset_to_line_col`: the byte offset of a 1-based (line,
/// column) pair.
pub fn line_col_to_offset(line_starts: &Vec<usize>, line: usize, col: usize) -> (offset: usize)
    requires
        valid_line_starts(line_starts@),
        1 <= line <= line_starts@.len(),
        1 <= col,
        line_starts@[line - 1] + col - 1 <= usize::MAX,
    ensures
        offset == line_starts@[line - 1] + col - 1,
{
    line_starts[line - 1] + (col - 1)
}

/// Offset-to-(line, column) conversion is injective: two offsets that land on
/// the same line at the same column are the same offset.
pub proof fn lemma_offset_line_col_injective(
    starts: Seq<usize>,
    o1: usize,
    o2: usize,
    l1: int,
    l2: int,
)
    requires
        valid_line_starts(starts),
        is_line_hit(starts, o1, l1),
        is_line_hit(starts, o2, l2),
        l1 == l2,
        o1 - starts[l1] == o2 - starts[l2],
    ensures
        o1 == o2,
{
}

/// Every in-range (line, column) pair is hit by exactly the offset it maps
/// back to: converting a pair to an offset and the offset back to a pair is
/// the identity.
pub proof fn lemma_line_col_offset_roundtrip(starts: Seq<usize>, li: int, col: int)
    requires
        valid_line_starts(starts),
        0 <= li < starts.len(),
        0 <= col,
        starts[li] + col <= usize::MAX,
        li + 1 < starts.len() ==> starts[li] + col < starts[li + 1],
    ensures
        is_line_hit(starts, (starts[li] + col) as usize, li),
{
}

/// How many UTF-16 code units a UTF-8 byte contributes: one per leading byte,
/// two for the lead of a four-byte sequence (a surrogate pair), none for
/// continuation bytes.
pub open spec fn utf16_weight(b: u8) -> int {
    if b < 0x80 {
        1
    } else if b < 0xC0 {
        0
    } else if b < 0xF0 {
        1
    } else {
        2
    }
}

/// The number of UTF-16 code units that a UTF-8 byte sequence encodes.
pub open spec fn utf16_units(s: Seq<u8>) -> int
    decreases s.len(),
{
    if s.len() == 0 {
        0
    } else {
        utf16_units(s.drop_last()) + utf16_weight(s.last())
    }
}

/// UTF-16 unit counts are bounded by twice the byte count and are never
/// negative.
pub proof fn lemma_utf16_units_bounds(s: Seq<u8>)
    ensures
        0 <= utf16_units(s) <= 2 * s.len(),
    decreases s.len(),
{
    if s.len() > 0 {
        lemma_utf16_units_bounds(s.drop_last());
    }
}

/// For all-ASCII text the UTF-16 unit count equals the byte count, so the
/// UTF-8 and UTF-16 column conventions agree at every position.
pub proof fn lemma_ascii_utf16_units(s: Seq<u8>)
    requires
        forall|i: int| 0 <= i < s.len() ==> s[i] < 0x80,
    ensures
        utf16_units(s) == s.len(),
    decreases s.len(),
{
    if s.len() > 0 {
        assert(forall|i: int| 0 <= i < s.drop_last().len() ==> s.drop_last()[i] < 0x80);
        lemma_ascii_utf16_units(s.drop_last());
    }
}

/// Convert a byte column within a line to an LSP character offset: the byte
/// column itself in UTF-8 mode, the UTF-16 unit count of the preceding bytes
/// otherwise. Columns past the end of the line clamp to the line end.
pub fn byte_col_to_lsp(line: &[u8], byte_col: usize, utf8: bool) -> (r: u32)
    requires
        line@.len() <= 0x7FFF_FFFF,
    ensures
        utf8 ==> r == if byte_col <= line@.len() {
            byte_col as int
        } else {
            line@.len() as int
        },
        !utf8 ==> r == utf16_units(
            line@.take(if byte_col <= line@.len() {
                byte_col as int
            } else {
                line@.len() as int
            }),
        ),
{
    let safe_col = if byte_col <= line.len() {
        byte_col
    } else {
        line.len()
    };
    if utf8 {
        safe_col as u32
    } else {
        let mut count: u32 = 0;
        let mut i: usize = 0;
        assert(line@.take(0) =~= Seq::<u8>::empty());
        while i < safe_col
            invariant
                i <= safe_col <= line@.len() <= 0x7FFF_FFFF,
                count == utf16_units(line@.take(i as int)),
            decreases safe_col - i,
        {
            proof {
                lemma_utf16_units_bounds(line@.take(i as int));
                assert(line@.take(i + 1).drop_last() =~= line@.take(i as int));
            }
            let b = line[i];
            if b < 0x80 {
                count = count + 1;
            } else if b < 0xC0 {
            } else if b < 0xF0 {
                count = count + 1;
            } else {
                count = count + 2;
            }
            i = i + 1;
        }
        count
    }
}

/// Where the scan for an LSP character target stops: the first character
/// boundary at which the accumulated UTF-16 unit count reaches the target, or
/// the end of the line.
pub open spec fn lsp_col_byte_spec(s: Seq<u8>, target: int, i: int, count: int) -> int
    decreases s.len() - i,
{
    if i >= s.len() {
        s.len() as int
    } else if s[i] < 0x80 || s[i] >= 0xC0 {
        if count >= target {
            i
        } else {
            lsp_col_byte_spec(s, target, i + 1, count + utf16_weight(s[i]))
        }
    } else {
        lsp_col_byte_spec(s, target, i + 1, count)
    }
}

/// Convert an LSP character offset within a line back to a byte column: the
/// character offset itself in UTF-8 mode (clamped to the line length), else
/// the byte position of the first character boundary at which the UTF-16
/// unit count reaches the target.
pub fn lsp_col_to_byte(line: &[u8], lsp_char: u32, utf8: bool) -> (r: usize)
    requires
        line@.len() <= 0x7FFF_FFFF,
    ensures
        utf8 ==> r == if (lsp_char as int) <= line@.len() {
            lsp_char as int
        } else {
            line@.len() as int
        },
        !utf8 ==> r == lsp_col_byte_spec(line@, lsp_char as int, 0, 0),
{
    if utf8 {
        if (lsp_char as usize) <= line.len() {
            lsp_char as usize
        } else {
            line.len()
        }
    } else {
        let mut count: u32 = 0;
        let mut i: usize = 0;
        loop
            invariant
                i <= line@.len() <= 0x7FFF_FFFF,
                0 <= count <= 2 * i,
                lsp_col_byte_spec(line@, lsp_char as int, 0, 0) == lsp_col_byte_spec(
                    line@,
                    lsp_char as int,
                    i as int,
                    count as int,
                ),
            ensures
                line@.len() >= i,
                lsp_col_byte_spec(line@, lsp_char as int, 0, 0) == if i < line@.len() {
                    i as int
                } else {
                    line@.len() as int
                },
            decreases line@.len() - i,
        {
            if i >= line.len() {
                break ;
            }
            let b = line[i];
            if b < 0x80 || b >= 0xC0 {
                if count >= lsp_char {
                    break ;
                }
                if b < 0x80 {
                    count = count + 1;
                } else if b < 0xF0 {
                    count = count + 1;
                } else {
                    count = count + 2;
                }
            }
            i = i + 1;
        }
        i
    }
}


/// UTF-16 unit counts never shrink as the prefix grows.
pub proof fn lemma_utf16_units_mono(s: Seq<u8>, a: int, b: int)
    requires
        0 <= a <= b <= s.len(),
    ensures
        utf16_units(s.take(a)) <= utf16_units(s.take(b)),
    decreases b - a,
{
    if a < b {
        lemma_utf16_units_mono(s, a, b - 1);
        assert(s.take(b).drop_last() =~= s.take(b - 1));
        assert(utf16_weight(s.take(b).last()) >= 0);
    }
}

/// Whether a byte position starts a character (or is the end of the text).
pub open spec fn is_char_boundary_at(s: Seq<u8>, i: int) -> bool {
    i == s.len() || s[i] < 0x80 || s[i] >= 0xC0
}

/// Past a character boundary the UTF-16 unit count strictly grows: the
/// boundary's lead byte weighs at least one unit.
pub proof fn lemma_utf16_units_strict(s: Seq<u8>, b: int, c: int)
    requires
        0 <= b < c <= s.len(),
        s[b] < 0x80 || s[b] >= 0xC0,
    ensures
        utf16_units(s.take(b)) < utf16_units(s.take(c)),
{
    assert(s.take(b + 1).drop_last() =~= s.take(b));
    assert(s.take(b + 1).last() == s[b]);
    assert(utf16_weight(s[b]) >= 1);
    lemma_utf16_units_mono(s, b + 1, c);
}

/// The scan for a UTF-16 target inverts the unit count: started anywhere at
/// or before a boundary `col` with the true running count, it stops exactly
/// at `col` when the target is the unit count of the prefix up to `col`.
proof fn lemma_scan_reaches_boundary(s: Seq<u8>, col: int, i: int)
    requires
        0 <= i <= col <= s.len(),
        is_char_boundary_at(s, col),
    ensures
        lsp_col_byte_spec(s, utf16_units(s.take(col)), i, utf16_units(s.take(i))) == col,
    decreases col - i,
{
    if i == col {
        if i < s.len() {
            assert(lsp_col_byte_spec(s, utf16_units(s.take(col)), i, utf16_units(s.take(i)))
                == i);
        } else {
            assert(s.take(col) =~= s);
        }
    } else {
        if s[i] < 0x80 || s[i] >= 0xC0 {
            lemma_utf16_units_strict(s, i, col);
            assert(s.take(i + 1).drop_last() =~= s.take(i));
            assert(s.take(i + 1).last() == s[i]);
            lemma_scan_reaches_boundary(s, col, i + 1);
        } else {
            assert(s.take(i + 1).drop_last() =~= s.take(i));
            assert(s.take(i + 1).last() == s[i]);
            assert(utf16_units(s.take(i + 1)) == utf16_units(s.take(i)));
            lemma_scan_reaches_boundary(s, col, i + 1);
        }
    }
}

/// Within a line, byte-column-to-UTF-16 conversion is a bijection on the
/// character boundaries: converting a boundary column to its UTF-16 unit
/// count and the count back to a byte column is the identity, in the UTF-16
/// mode as well as the (trivial) UTF-8 mode.
pub proof fn lemma_utf16_column_roundtrip(s: Seq<u8>, col: int)
    requires
        0 <= col <= s.len(),
        is_char_boundary_at(s, col),
    ensures
        lsp_col_byte_spec(s, utf16_units(s.take(col)), 0, 0) == col,
{
    assert(s.take(0) =~= Seq::<u8>::empty());
    lemma_scan_reaches_boundary(s, col, 0);
}

/// For all-ASCII text the two column conventions agree at every position:
/// the UTF-16 unit count of any prefix is its byte count.
pub proof fn lemma_ascii_modes_agree(s: Seq<u8>, col: int)
    requires
        0 <= col <= s.len(),
        forall|i: int| 0 <= i < s.len() ==> s[i] < 0x80,
    ensures
        utf16_units(s.take(col)) == col,
{
    assert(forall|i: int| 0 <= i < s.take(col).len() ==> s.take(col)[i] < 0x80);
    lemma_ascii_utf16_units(s.take(col));
}

/// Strip a UTF-8 byte-order mark from the front of a text, if present.
pub fn strip_bom(source: &[u8]) -> (r: &[u8])
    ensures
        r@ == if source@.len() >= 3 && source@[0] == 0xEF && source@[1] == 0xBB && source@[2]
            == 0xBF {
            source@.skip(3)
        } else {
            source@
        },
{
    if source.len() >= 3 && source[0] == 0xEF && source[1] == 0xBB && source[2] == 0xBF {
        let r = &source[3..source.len()];
        assert(r@ =~= source@.skip(3));
        r
    } else {
        source
    }
}

} // verus!
