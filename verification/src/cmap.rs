use vstd::prelude::*;
use vstd::slice::slice_subrange;
use crate::error::{FontParseError, NotFound};
use crate::primitive::{get_u16, get_u32, u16_at, u24_at, u32_at, Offset32};
use crate::search::Column;

verus! {

/// The glyph that stands for a missing one.
pub const NOTDEF: u16 = 0;

/// The format of a character map subtable, with the header fields that its
/// lookups need.
#[derive(Debug, Clone, Copy, PartialEq, Eq, Structural)]
pub enum SubtableKind {
    /// Format 0: one glyph for each of the byte values.
    ByteEncoding,
    /// Format 4: segments of the basic plane, each with a delta or with a
    /// slice of the glyph array.
    SegmentDeltas { seg_count: usize },
    /// Format 6: one run of codes with a glyph for each.
    Trimmed { first_code: u16, entry_count: u16 },
    /// Format 12: groups of codes of the whole range, each mapped to a run of
    /// glyphs.
    SegmentedCoverage { num_groups: usize },
    /// Format 14: variation selectors, each with the bases it applies to.
    VariationSequences { num_records: usize },
}

/// The end codes of the segments of a format 4 subtable.
pub open spec fn end_codes(seg_count: usize) -> Column {
    Column { base: 14, stride: 2, field: 0, width: 2, count: seg_count }
}

/// The last codes of the groups of a format 12 subtable.
pub open spec fn group_ends(num_groups: usize) -> Column {
    Column { base: 16, stride: 12, field: 4, width: 4, count: num_groups }
}

/// The part of `data` that a subtable at its front takes part in lookups
/// with: for format 4 the bytes that its length field covers, so that the
/// glyph array ends where the subtable does; else all of it.
pub open spec fn subtable_window(data: Seq<u8>) -> Seq<u8> {
    if data.len() >= 4 && u16_at(data, 0) == 4 && u16_at(data, 2) <= data.len() {
        data.subrange(0, u16_at(data, 2))
    } else {
        data
    }
}

/// Whether the window `w` holds a whole subtable of kind `kind`, with its
/// search keys in order.
pub open spec fn layout_ok(w: Seq<u8>, kind: SubtableKind) -> bool {
    match kind {
        SubtableKind::ByteEncoding => w.len() >= 262,
        SubtableKind::SegmentDeltas { seg_count } => {
            &&& seg_count <= 0x7FFF
            &&& 16 + 8 * seg_count <= w.len()
            &&& end_codes(seg_count).sorted(w)
        },
        SubtableKind::Trimmed { first_code, entry_count } => 10 + 2 * entry_count <= w.len(),
        SubtableKind::SegmentedCoverage { num_groups } => {
            &&& 16 + 12 * num_groups <= w.len()
            &&& group_ends(num_groups).sorted(w)
        },
        SubtableKind::VariationSequences { num_records } => {
            &&& 10 + 11 * num_records <= w.len()
            &&& selectors(num_records).sorted(w)
            &&& forall|r: int| 0 <= r < num_records ==> #[trigger] selector_ok(w, r)
        },
    }
}

/// The kind that the header at the front of `w` announces.
pub open spec fn announced(w: Seq<u8>) -> Option<SubtableKind> {
    if w.len() < 2 {
        None
    } else if u16_at(w, 0) == 0 {
        Some(SubtableKind::ByteEncoding)
    } else if u16_at(w, 0) == 4 && w.len() >= 8 {
        Some(SubtableKind::SegmentDeltas { seg_count: (u16_at(w, 6) / 2) as usize })
    } else if u16_at(w, 0) == 6 && w.len() >= 10 {
        Some(
            SubtableKind::Trimmed {
                first_code: u16_at(w, 6) as u16,
                entry_count: u16_at(w, 8) as u16,
            },
        )
    } else if u16_at(w, 0) == 12 && w.len() >= 16 && u32_at(w, 12) <= usize::MAX {
        Some(SubtableKind::SegmentedCoverage { num_groups: u32_at(w, 12) as usize })
    } else if u16_at(w, 0) == 14 && w.len() >= 10 && u32_at(w, 6) <= usize::MAX {
        Some(SubtableKind::VariationSequences { num_records: u32_at(w, 6) as usize })
    } else {
        None
    }
}

/// The kind of the subtable in the window `w`: the one its header announces,
/// where the window holds all of it and its search keys are in order.
pub open spec fn layout_of(w: Seq<u8>) -> Option<SubtableKind> {
    match announced(w) {
        Some(kind) => if layout_ok(w, kind) {
            Some(kind)
        } else {
            None
        },
        None => None,
    }
}

/// The start code of segment `i` of a format 4 subtable of `n` segments.
pub open spec fn seg_start(w: Seq<u8>, n: int, i: int) -> int {
    u16_at(w, 16 + 2 * n + 2 * i)
}

/// The delta of segment `i`.
pub open spec fn seg_delta(w: Seq<u8>, n: int, i: int) -> int {
    u16_at(w, 16 + 4 * n + 2 * i)
}

/// Where the range offset of segment `i` stands.
pub open spec fn seg_range_pos(n: int, i: int) -> int {
    16 + 6 * n + 2 * i
}

/// A glyph with a segment's delta added, modulo 65536.
pub open spec fn shifted(glyph: int, delta: int) -> int {
    (glyph + delta) % 0x1_0000
}

/// The end code of segment `i` of a format 4 subtable.
pub open spec fn seg_end(w: Seq<u8>, i: int) -> int {
    u16_at(w, 14 + 2 * i)
}

/// The glyph that segment `i` of a format 4 subtable of `n` segments gives
/// to a code `cp` of the segment. With a range offset of zero it is the code
/// with the delta added; else it is read from the glyph array, at the range
/// offset from where the offset stands plus the distance of `cp` from the
/// segment's start, the delta is added to it, and it is missing where the
/// array holds zero or ends before it.
pub open spec fn segment_glyph(w: Seq<u8>, n: int, i: int, cp: int) -> int {
    let range = u16_at(w, seg_range_pos(n, i));
    if range == 0 {
        shifted(cp, seg_delta(w, n, i))
    } else {
        let pos = seg_range_pos(n, i) + range + 2 * (cp - seg_start(w, n, i));
        if pos + 2 > w.len() || u16_at(w, pos) == 0 {
            0
        } else {
            shifted(u16_at(w, pos), seg_delta(w, n, i))
        }
    }
}

/// The glyph of `cp` in a format 4 subtable of `n` segments. The first
/// segment that ends at or after `cp` decides: where it starts after `cp`,
/// or there is none, the glyph is missing; else it is the glyph that the
/// segment gives.
pub open spec fn glyph_in_segments(w: Seq<u8>, n: usize, cp: int) -> int {
    let i = end_codes(n).lower_bound_of(w, cp);
    if cp > 0xFFFF || i >= n || seg_start(w, n as int, i) > cp {
        0
    } else {
        segment_glyph(w, n as int, i, cp)
    }
}

/// The first code of group `i` of a format 12 subtable.
pub open spec fn group_start(w: Seq<u8>, i: int) -> int {
    u32_at(w, 16 + 12 * i)
}

/// The last code of group `i`.
pub open spec fn group_end(w: Seq<u8>, i: int) -> int {
    u32_at(w, 16 + 12 * i + 4)
}

/// The glyph that group `i` gives to a code `cp` of the group: the group's
/// first glyph plus the distance of `cp` from the group's start, or the
/// missing glyph where that does not fit in 16 bits.
pub open spec fn group_glyph(w: Seq<u8>, i: int, cp: int) -> int {
    let glyph = u32_at(w, 16 + 12 * i + 8) + (cp - group_start(w, i));
    if glyph > 0xFFFF {
        0
    } else {
        glyph
    }
}

/// The glyph of `cp` in a format 12 subtable of `n` groups. The first group
/// that ends at or after `cp` decides: where it starts after `cp`, or there
/// is none, the glyph is missing; else it is the glyph that the group gives.
pub open spec fn glyph_in_groups(w: Seq<u8>, n: usize, cp: int) -> int {
    let i = group_ends(n).lower_bound_of(w, cp);
    if i >= n || group_start(w, i) > cp {
        0
    } else {
        group_glyph(w, i, cp)
    }
}

/// Whether each segment of a format 4 subtable ends before the next starts.
pub open spec fn segments_apart(w: Seq<u8>, n: int) -> bool {
    forall|a: int, b: int| 0 <= a < b < n ==> seg_end(w, a) < seg_start(w, n, b)
}

/// Whether each group of a format 12 subtable ends before the next starts.
pub open spec fn groups_apart(w: Seq<u8>, n: int) -> bool {
    forall|a: int, b: int| 0 <= a < b < n ==> group_end(w, a) < group_start(w, b)
}

/// In a format 4 subtable with end codes in order and segments apart, a code
/// inside segment `j` has the glyph that segment `j` gives.
pub proof fn lemma_code_in_segment(w: Seq<u8>, n: usize, cp: int, j: int)
    requires
        end_codes(n).sorted(w),
        segments_apart(w, n as int),
        0 <= j < n,
        seg_start(w, n as int, j) <= cp <= seg_end(w, j),
    ensures
        glyph_in_segments(w, n, cp) == segment_glyph(w, n as int, j, cp),
{
    let col = end_codes(n);
    let i = col.lower_bound_of(w, cp);
    col.lemma_lower_bound_parts(w, cp);
    assert(col.key(w, j) == seg_end(w, j));
    if j < i {
        assert(col.key(w, j) < cp);
    }
    if i < j {
        assert(col.key(w, i) == seg_end(w, i));
        assert(col.key(w, i) >= cp);
    }
}

/// In a format 4 subtable with end codes in order, a code that lies in no
/// segment has the missing glyph.
pub proof fn lemma_code_in_no_segment(w: Seq<u8>, n: usize, cp: int)
    requires
        end_codes(n).sorted(w),
        forall|j: int| 0 <= j < n ==> !(seg_start(w, n as int, j) <= cp <= #[trigger] seg_end(w, j)),
    ensures
        glyph_in_segments(w, n, cp) == 0,
{
    let col = end_codes(n);
    let i = col.lower_bound_of(w, cp);
    col.lemma_lower_bound_parts(w, cp);
    if i < n {
        assert(col.key(w, i) == seg_end(w, i));
        assert(col.key(w, i) >= cp);
    }
}

/// In a format 12 subtable with last codes in order and groups apart, a code
/// inside group `j` has the glyph that group `j` gives.
pub proof fn lemma_code_in_group(w: Seq<u8>, n: usize, cp: int, j: int)
    requires
        group_ends(n).sorted(w),
        groups_apart(w, n as int),
        0 <= j < n,
        group_start(w, j) <= cp <= group_end(w, j),
    ensures
        glyph_in_groups(w, n, cp) == group_glyph(w, j, cp),
{
    let col = group_ends(n);
    let i = col.lower_bound_of(w, cp);
    col.lemma_lower_bound_parts(w, cp);
    assert(col.key(w, j) == group_end(w, j));
    if j < i {
        assert(col.key(w, j) < cp);
    }
    if i < j {
        assert(col.key(w, i) == group_end(w, i));
        assert(col.key(w, i) >= cp);
    }
}

/// In a format 12 subtable with last codes in order, a code that lies in no
/// group has the missing glyph.
pub proof fn lemma_code_in_no_group(w: Seq<u8>, n: usize, cp: int)
    requires
        group_ends(n).sorted(w),
        forall|j: int| 0 <= j < n ==> !(group_start(w, j) <= cp <= #[trigger] group_end(w, j)),
    ensures
        glyph_in_groups(w, n, cp) == 0,
{
    let col = group_ends(n);
    let i = col.lower_bound_of(w, cp);
    col.lemma_lower_bound_parts(w, cp);
    if i < n {
        assert(col.key(w, i) == group_end(w, i));
        assert(col.key(w, i) >= cp);
    }
}

/// A code point has a glyph in a subtable only inside the range that the
/// subtable's format can hold: past 255 format 0 gives the missing glyph, and
/// past the basic plane format 4 and format 6 do.
pub proof fn lemma_outside_the_format_is_missing(w: Seq<u8>, kind: SubtableKind, cp: int)
    ensures
        kind is ByteEncoding && cp >= 256 ==> glyph_of(w, kind, cp) == 0,
        kind is SegmentDeltas && cp > 0xFFFF ==> glyph_of(w, kind, cp) == 0,
        kind is Trimmed && cp >= 0x1_FFFE ==> glyph_of(w, kind, cp) == 0,
        kind is VariationSequences ==> glyph_of(w, kind, cp) == 0,
{
}

/// The glyph of the code point `cp` in a subtable of kind `kind` held in
/// `w`; zero where the subtable has none.
pub open spec fn glyph_of(w: Seq<u8>, kind: SubtableKind, cp: int) -> int {
    match kind {
        SubtableKind::ByteEncoding => if cp < 256 {
            w[6 + cp] as int
        } else {
            0
        },
        SubtableKind::SegmentDeltas { seg_count } => glyph_in_segments(w, seg_count, cp),
        SubtableKind::Trimmed { first_code, entry_count } => if first_code <= cp < first_code
            + entry_count {
            u16_at(w, 10 + 2 * (cp - first_code))
        } else {
            0
        },
        SubtableKind::SegmentedCoverage { num_groups } => glyph_in_groups(w, num_groups, cp),
        SubtableKind::VariationSequences { num_records } => 0,
    }
}

/// The variation selectors of the records of a format 14 subtable.
pub open spec fn selectors(num_records: usize) -> Column {
    Column { base: 10, stride: 11, field: 0, width: 3, count: num_records }
}

/// Where the table of default bases of record `r` starts, or zero.
pub open spec fn default_offset(w: Seq<u8>, r: int) -> int {
    u32_at(w, 10 + 11 * r + 3)
}

/// Where the table of mapped bases of record `r` starts, or zero.
pub open spec fn mapped_offset(w: Seq<u8>, r: int) -> int {
    u32_at(w, 10 + 11 * r + 7)
}

/// The base code points of the table at `off`: a count of 32 bits, then
/// entries of `stride` bytes that each start with a code point of 24 bits.
pub open spec fn bases(w: Seq<u8>, off: int, stride: usize) -> Column {
    Column {
        base: (off + 4) as usize,
        stride: stride,
        field: 0,
        width: 3,
        count: u32_at(w, off) as usize,
    }
}

/// Whether there is no table at `off`, or one that lies inside `w` with its
/// bases in order.
pub open spec fn bases_ok(w: Seq<u8>, off: int, stride: usize) -> bool {
    off == 0 || (off + 4 <= w.len() && off + 4 + u32_at(w, off) * stride <= w.len() && bases(
        w,
        off,
        stride,
    ).sorted(w))
}

/// Whether both tables of record `r` can be searched.
pub open spec fn selector_ok(w: Seq<u8>, r: int) -> bool {
    bases_ok(w, default_offset(w, r), 4) && bases_ok(w, mapped_offset(w, r), 5)
}

/// What a subtable says of a base code point followed by a variation
/// selector.
#[derive(Debug, Clone, Copy, PartialEq, Eq, Structural)]
pub enum Variation {
    /// The sequence has a glyph of its own.
    Glyph(u16),
    /// The sequence is shown with the glyph that the base has by itself.
    UseDefault,
    /// The sequence is not registered.
    Absent,
}

/// Whether the table of mapped bases at `off` holds `base`: the first entry
/// that is at least `base` is `base`.
pub open spec fn is_mapped(w: Seq<u8>, off: int, base: int) -> bool {
    let t = bases(w, off, 5);
    let k = t.lower_bound_of(w, base);
    k < t.count && t.key(w, k) == base
}

/// The glyph that the table of mapped bases at `off` gives for `base`.
pub open spec fn mapped_glyph(w: Seq<u8>, off: int, base: int) -> int {
    u16_at(w, off + 4 + 5 * bases(w, off, 5).lower_bound_of(w, base) + 3)
}

/// Whether the table of default bases at `off` covers `base`: the last range
/// that starts at or before `base` reaches it. A range is a first code point
/// and the number of code points that follow it.
pub open spec fn is_default(w: Seq<u8>, off: int, base: int) -> bool {
    let t = bases(w, off, 4);
    let k = t.lower_bound_of(w, base + 1);
    k > 0 && base <= t.key(w, k - 1) + w[off + 4 + 4 * (k - 1) + 3]
}

/// What a format 14 subtable of `n` records says of `base` followed by
/// `selector`. The record of the selector is consulted: first its mapped
/// bases, then its default bases.
pub open spec fn variation_of(w: Seq<u8>, n: usize, base: int, selector: int) -> Variation {
    let r = selectors(n).lower_bound_of(w, selector);
    if base > 0xFF_FFFF || selector > 0xFF_FFFF || r >= n || selectors(n).key(w, r) != selector {
        Variation::Absent
    } else if mapped_offset(w, r) != 0 && is_mapped(w, mapped_offset(w, r), base) {
        Variation::Glyph(mapped_glyph(w, mapped_offset(w, r), base) as u16)
    } else if default_offset(w, r) != 0 && is_default(w, default_offset(w, r), base) {
        Variation::UseDefault
    } else {
        Variation::Absent
    }
}

/// What a subtable of kind `kind` says of `base` followed by `selector`;
/// only format 14 registers any sequence.
pub open spec fn variation_in(w: Seq<u8>, kind: SubtableKind, base: int, selector: int) -> Variation {
    match kind {
        SubtableKind::VariationSequences { num_records } => variation_of(
            w,
            num_records,
            base,
            selector,
        ),
        _ => Variation::Absent,
    }
}

/// The first code point of range `k` of the table of default bases at `off`.
pub open spec fn range_start(w: Seq<u8>, off: int, k: int) -> int {
    u24_at(w, off + 4 + 4 * k)
}

/// The number of code points that follow the first in range `k`.
pub open spec fn range_more(w: Seq<u8>, off: int, k: int) -> int {
    w[off + 4 + 4 * k + 3] as int
}

/// Whether each range of the table of default bases at `off` ends before the
/// next starts.
pub open spec fn ranges_apart(w: Seq<u8>, off: int) -> bool {
    forall|a: int, b: int|
        0 <= a < b < u32_at(w, off) ==> range_start(w, off, a) + range_more(w, off, a)
            < range_start(w, off, b)
}

/// A table of mapped bases that is in order holds a base exactly where one
/// of its entries carries it.
pub proof fn lemma_mapped_iff_listed(w: Seq<u8>, off: int, base: int)
    requires
        bases(w, off, 5).sorted(w),
    ensures
        is_mapped(w, off, base) <==> (exists|k: int|
            0 <= k < bases(w, off, 5).count && bases(w, off, 5).key(w, k) == base),
{
    bases(w, off, 5).lemma_found_iff_present(w, base);
}

/// A table of default bases that is in order, with its ranges apart, covers
/// a base that lies in its range `k`.
pub proof fn lemma_base_in_range(w: Seq<u8>, off: int, base: int, k: int)
    requires
        0 < off,
        off + 4 <= usize::MAX,
        u32_at(w, off) <= usize::MAX,
        bases(w, off, 4).sorted(w),
        ranges_apart(w, off),
        0 <= k < u32_at(w, off),
        range_start(w, off, k) <= base <= range_start(w, off, k) + range_more(w, off, k),
    ensures
        is_default(w, off, base),
{
    let t = bases(w, off, 4);
    let i = t.lower_bound_of(w, base + 1);
    t.lemma_lower_bound_parts(w, base + 1);
    assert(t.key(w, k) == range_start(w, off, k));
    if i <= k {
        assert(t.key(w, k) >= base + 1);
    }
    if k < i - 1 {
        assert(t.key(w, i - 1) == range_start(w, off, i - 1));
        assert(t.key(w, i - 1) < base + 1);
    }
}

/// A table of default bases that is in order covers a base only where the
/// base lies in one of its ranges.
pub proof fn lemma_default_is_in_range(w: Seq<u8>, off: int, base: int)
    requires
        0 < off,
        off + 4 <= usize::MAX,
        u32_at(w, off) <= usize::MAX,
        bases(w, off, 4).sorted(w),
        is_default(w, off, base),
    ensures
        exists|k: int|
            0 <= k < u32_at(w, off) && #[trigger] range_start(w, off, k) <= base <= range_start(
                w,
                off,
                k,
            ) + range_more(w, off, k),
{
    let t = bases(w, off, 4);
    let i = t.lower_bound_of(w, base + 1);
    t.lemma_lower_bound_parts(w, base + 1);
    assert(t.key(w, i - 1) == range_start(w, off, i - 1));
    assert(t.key(w, i - 1) < base + 1);
}

/// Tells whether the table of bases at `off` can be searched.
fn check_bases(w: &[u8], off: u32, stride: usize) -> (b: bool)
    requires
        stride == 4 || stride == 5,
    ensures
        b == bases_ok(w@, off as int, stride),
{
    if off == 0 {
        return true;
    }
    let len: usize = w.len();
    if off as u64 + 4 > len as u64 {
        return false;
    }
    let count: u32 = get_u32(w, off as usize);
    assert(count * stride <= 5 * 0xFFFF_FFFF) by (nonlinear_arith)
        requires
            0 <= count <= 0xFFFF_FFFF,
            0 <= stride <= 5,
    ;
    if off as u64 + 4 + (count as u64) * (stride as u64) > len as u64 {
        return false;
    }
    let t = Column::new(off as usize + 4, stride, 0, 3, count as usize);
    t.is_sorted(w)
}

/// A subtable of a character map: a window of the font's data and the
/// header fields that say how to read it.
#[derive(Debug, Clone, Copy)]
pub struct CmapSubtable<'buf> {
    data: &'buf [u8],
    kind: SubtableKind,
}

impl<'buf> CmapSubtable<'buf> {
    /// The window holds all of the subtable, with its search keys in order.
    #[verifier::type_invariant]
    pub closed spec fn wf(&self) -> bool {
        layout_ok(self.data@, self.kind)
    }

    /// The bytes of the subtable.
    pub closed spec fn window(&self) -> Seq<u8> {
        self.data@
    }

    /// The subtable's format and header fields.
    pub closed spec fn spec_kind(&self) -> SubtableKind {
        self.kind
    }

    /// The subtable's format and header fields.
    pub fn kind(&self) -> (k: SubtableKind)
        ensures
            k == self.spec_kind(),
    {
        self.kind
    }

    /// Reads the subtable at the front of `data` and checks it once: that
    /// its format is known, that `data` holds all of it, and that the keys it
    /// is searched by are in order.
    pub fn parse(data: &'buf [u8]) -> (r: Result<CmapSubtable<'buf>, FontParseError>)
        ensures
            match layout_of(subtable_window(data@)) {
                Some(kind) => r is Ok && r->Ok_0.window() == subtable_window(data@)
                    && r->Ok_0.spec_kind() == kind,
                None => r is Err && r->Err_0 == FontParseError::UnexpectedEof,
            },
    {
        let len: usize = data.len();
        if len >= 4 && get_u16(data, 0) == 4 {
            let declared: usize = get_u16(data, 2) as usize;
            if declared <= len {
                return Self::parse_window(slice_subrange(data, 0, declared));
            }
        }
        Self::parse_window(data)
    }

    /// Reads the subtable that fills the window `w`.
    fn parse_window(w: &'buf [u8]) -> (r: Result<CmapSubtable<'buf>, FontParseError>)
        ensures
            match layout_of(w@) {
                Some(kind) => r is Ok && r->Ok_0.window() == w@ && r->Ok_0.spec_kind() == kind,
                None => r is Err && r->Err_0 == FontParseError::UnexpectedEof,
            },
    {
        let len: usize = w.len();
        if len < 2 {
            return Err(FontParseError::UnexpectedEof);
        }
        let format: u16 = get_u16(w, 0);
        if format == 0 {
            if len < 262 {
                return Err(FontParseError::UnexpectedEof);
            }
            Ok(CmapSubtable { data: w, kind: SubtableKind::ByteEncoding })
        } else if format == 4 && len >= 8 {
            let n: usize = (get_u16(w, 6) / 2) as usize;
            if len < 16 + 8 * n {
                return Err(FontParseError::UnexpectedEof);
            }
            let ends = Column::new(14, 2, 0, 2, n);
            if !ends.is_sorted(w) {
                return Err(FontParseError::UnexpectedEof);
            }
            Ok(CmapSubtable { data: w, kind: SubtableKind::SegmentDeltas { seg_count: n } })
        } else if format == 6 && len >= 10 {
            let first_code: u16 = get_u16(w, 6);
            let entry_count: u16 = get_u16(w, 8);
            if len < 10 + 2 * (entry_count as usize) {
                return Err(FontParseError::UnexpectedEof);
            }
            Ok(CmapSubtable { data: w, kind: SubtableKind::Trimmed { first_code, entry_count } })
        } else if format == 12 && len >= 16 {
            let n: u32 = get_u32(w, 12);
            if (len as u64) < 16 + 12 * (n as u64) {
                return Err(FontParseError::UnexpectedEof);
            }
            let n: usize = n as usize;
            let ends = Column::new(16, 12, 4, 4, n);
            if !ends.is_sorted(w) {
                return Err(FontParseError::UnexpectedEof);
            }
            Ok(CmapSubtable { data: w, kind: SubtableKind::SegmentedCoverage { num_groups: n } })
        } else if format == 14 && len >= 10 {
            let n: u32 = get_u32(w, 6);
            if (len as u64) < 10 + 11 * (n as u64) {
                return Err(FontParseError::UnexpectedEof);
            }
            let n: usize = n as usize;
            let sels = Column::new(10, 11, 0, 3, n);
            if !sels.is_sorted(w) {
                return Err(FontParseError::UnexpectedEof);
            }
            let mut r: usize = 0;
            while r < n
                invariant
                    0 <= r <= n,
                    10 + 11 * n <= w@.len(),
                    w@.len() == len,
                    announced(w@) == Some(SubtableKind::VariationSequences { num_records: n }),
                    selectors(n).sorted(w@),
                    forall|k: int| 0 <= k < r ==> #[trigger] selector_ok(w@, k),
                decreases n - r,
            {
                let rec: usize = 10 + 11 * r;
                if !check_bases(w, get_u32(w, rec + 3), 4) || !check_bases(
                    w,
                    get_u32(w, rec + 7),
                    5,
                ) {
                    assert(!selector_ok(w@, r as int));
                    return Err(FontParseError::UnexpectedEof);
                }
                r = r + 1;
            }
            Ok(CmapSubtable { data: w, kind: SubtableKind::VariationSequences { num_records: n } })
        } else {
            Err(FontParseError::UnexpectedEof)
        }
    }

    /// What the subtable says of `base` followed by the variation selector
    /// `selector`.
    pub fn variation(&self, base: u32, selector: u32) -> (v: Variation)
        ensures
            v == variation_in(self.window(), self.spec_kind(), base as int, selector as int),
    {
        proof {
            use_type_invariant(self);
        }
        let w = self.data;
        let len: usize = w.len();
        match self.kind {
            SubtableKind::VariationSequences { num_records } => {
                let n: usize = num_records;
                if base > 0xFF_FFFF || selector > 0xFF_FFFF {
                    return Variation::Absent;
                }
                let sels = Column::new(10, 11, 0, 3, n);
                let r: usize = sels.lower_bound(w, selector);
                if r >= n {
                    return Variation::Absent;
                }
                if sels.read(w, r) != selector {
                    return Variation::Absent;
                }
                assert(selector_ok(w@, r as int));
                let rec: usize = 10 + 11 * r;
                let default_at: u32 = get_u32(w, rec + 3);
                let mapped_at: u32 = get_u32(w, rec + 7);
                if mapped_at != 0 {
                    let at: usize = mapped_at as usize;
                    let count: usize = get_u32(w, at) as usize;
                    let t = Column::new(at + 4, 5, 0, 3, count);
                    let k: usize = t.lower_bound(w, base);
                    if k < count {
                        proof {
                            t.lemma_record_inside(w@, k as int);
                        }
                        if t.read(w, k) == base {
                            return Variation::Glyph(get_u16(w, at + 4 + 5 * k + 3));
                        }
                    }
                }
                if default_at != 0 {
                    let at: usize = default_at as usize;
                    let count: usize = get_u32(w, at) as usize;
                    let t = Column::new(at + 4, 4, 0, 3, count);
                    let k: usize = t.lower_bound(w, base + 1);
                    if k > 0 {
                        proof {
                            t.lemma_record_inside(w@, k - 1);
                        }
                        let first: u32 = t.read(w, k - 1);
                        let more: u8 = w[at + 4 + 4 * (k - 1) + 3];
                        if base as u64 <= first as u64 + more as u64 {
                            return Variation::UseDefault;
                        }
                    }
                }
                Variation::Absent
            },
            _ => Variation::Absent,
        }
    }

    /// The glyph of the code point `cp`, or the missing glyph where the
    /// subtable has none for it.
    pub fn glyph_index(&self, cp: u32) -> (g: u16)
        ensures
            g as int == glyph_of(self.window(), self.spec_kind(), cp as int),
    {
        proof {
            use_type_invariant(self);
        }
        let w = self.data;
        let len: usize = w.len();
        match self.kind {
            SubtableKind::ByteEncoding => {
                if cp < 256 {
                    w[6 + cp as usize] as u16
                } else {
                    NOTDEF
                }
            },
            SubtableKind::SegmentDeltas { seg_count } => {
                let n: usize = seg_count;
                if cp > 0xFFFF {
                    return NOTDEF;
                }
                let ends = Column::new(14, 2, 0, 2, n);
                let i: usize = ends.lower_bound(w, cp);
                if i >= n {
                    return NOTDEF;
                }
                let start: u16 = get_u16(w, 16 + 2 * n + 2 * i);
                if start as u32 > cp {
                    return NOTDEF;
                }
                let delta: u32 = get_u16(w, 16 + 4 * n + 2 * i) as u32;
                let range_pos: usize = 16 + 6 * n + 2 * i;
                let range: u16 = get_u16(w, range_pos);
                if range == 0 {
                    ((cp + delta) % 0x1_0000) as u16
                } else {
                    let pos: usize = range_pos + range as usize + 2 * ((cp - start as u32) as usize);
                    if pos + 2 > len {
                        return NOTDEF;
                    }
                    let glyph: u16 = get_u16(w, pos);
                    if glyph == 0 {
                        NOTDEF
                    } else {
                        ((glyph as u32 + delta) % 0x1_0000) as u16
                    }
                }
            },
            SubtableKind::Trimmed { first_code, entry_count } => {
                if cp >= first_code as u32 && cp < first_code as u32 + entry_count as u32 {
                    get_u16(w, 10 + 2 * ((cp - first_code as u32) as usize))
                } else {
                    NOTDEF
                }
            },
            SubtableKind::SegmentedCoverage { num_groups } => {
                let n: usize = num_groups;
                let ends = Column::new(16, 12, 4, 4, n);
                let i: usize = ends.lower_bound(w, cp);
                if i >= n {
                    return NOTDEF;
                }
                let start: u32 = get_u32(w, 16 + 12 * i);
                if start > cp {
                    return NOTDEF;
                }
                let glyph: u64 = get_u32(w, 16 + 12 * i + 8) as u64 + (cp - start) as u64;
                if glyph > 0xFFFF {
                    NOTDEF
                } else {
                    glyph as u16
                }
            },
            SubtableKind::VariationSequences { num_records } => NOTDEF,
        }
    }
}

/// What a subtable is wanted for.
#[derive(Debug, Clone, Copy, PartialEq, Eq, Structural)]
pub enum Purpose {
    /// To find the glyph of a code point.
    Glyphs,
    /// To find the glyph of a base code point with a variation selector.
    Variations,
}

/// How much a subtable with this platform and encoding is preferred for a
/// purpose: 1 is best, and 0 means that it is never taken. For glyphs the
/// full Unicode range comes before the basic plane, and with each the Unicode
/// platform (0) before Windows (3); any other encoding of the Unicode
/// platform comes last. For variations only the Unicode platform with
/// encoding 5 serves.
pub open spec fn preference(purpose: Purpose, platform: int, encoding: int) -> int {
    match purpose {
        Purpose::Glyphs => if platform == 0 && encoding == 4 {
            1
        } else if platform == 3 && encoding == 10 {
            2
        } else if platform == 0 && encoding == 3 {
            3
        } else if platform == 3 && encoding == 1 {
            4
        } else if platform == 0 && encoding != 5 {
            5
        } else {
            0
        },
        Purpose::Variations => if platform == 0 && encoding == 5 {
            1
        } else {
            0
        },
    }
}

/// Computes the preference of a platform and encoding for a purpose.
pub fn rank(purpose: Purpose, platform: u16, encoding: u16) -> (r: u8)
    ensures
        r as int == preference(purpose, platform as int, encoding as int),
{
    match purpose {
        Purpose::Glyphs => {
            if platform == 0 && encoding == 4 {
                1
            } else if platform == 3 && encoding == 10 {
                2
            } else if platform == 0 && encoding == 3 {
                3
            } else if platform == 3 && encoding == 1 {
                4
            } else if platform == 0 && encoding != 5 {
                5
            } else {
                0
            }
        },
        Purpose::Variations => {
            if platform == 0 && encoding == 5 {
                1
            } else {
                0
            }
        },
    }
}

/// The number of encoding records of the character map table `t`; none
/// where the table is too short for its header or for the records that the
/// header announces.
pub open spec fn encoding_count(t: Seq<u8>) -> int {
    if t.len() < 4 || 4 + 8 * u16_at(t, 2) > t.len() {
        0
    } else {
        u16_at(t, 2)
    }
}

/// One encoding record of a character map table: the platform and encoding
/// that a subtable serves, and where the subtable starts in the table.
#[derive(Debug, Clone, Copy, PartialEq, Eq, Structural)]
pub struct PlatformEncodingRecord {
    pub platform_id: u16,
    pub encoding_id: u16,
    pub subtable_offset: Offset32,
}

/// Whether `rec` is encoding record `i` of the table `t`.
pub open spec fn encodes_record(t: Seq<u8>, i: int, rec: PlatformEncodingRecord) -> bool {
    &&& rec.platform_id as int == u16_at(t, 4 + 8 * i)
    &&& rec.encoding_id as int == u16_at(t, 4 + 8 * i + 2)
    &&& rec.subtable_offset.0 as int == u32_at(t, 4 + 8 * i + 4)
}

/// Counts the encoding records of the table `t`.
pub fn encoding_records(t: &[u8]) -> (n: usize)
    ensures
        n as int == encoding_count(t@),
{
    let len: usize = t.len();
    if len < 4 {
        return 0;
    }
    let n: usize = get_u16(t, 2) as usize;
    if 4 + 8 * n > len {
        0
    } else {
        n
    }
}

/// Decodes encoding record `i` of the table `t`; none where the table has
/// no such record.
pub fn encoding_record(t: &[u8], i: usize) -> (r: Option<PlatformEncodingRecord>)
    ensures
        i < encoding_count(t@) ==> r is Some && encodes_record(t@, i as int, r->Some_0),
        i >= encoding_count(t@) ==> r is None,
{
    if i >= encoding_records(t) {
        return None;
    }
    let at: usize = 4 + 8 * i;
    Some(
        PlatformEncodingRecord {
            platform_id: get_u16(t, at),
            encoding_id: get_u16(t, at + 2),
            subtable_offset: Offset32(get_u32(t, at + 4)),
        },
    )
}

/// The preference of encoding record `i` of the table `t`.
pub open spec fn rank_at(t: Seq<u8>, purpose: Purpose, i: int) -> int {
    preference(purpose, u16_at(t, 4 + 8 * i), u16_at(t, 4 + 8 * i + 2))
}

/// Whether record `i` is the one to take among the first `k` records: it
/// serves the purpose, none of them is preferred to it, and it is the first
/// of its preference.
pub open spec fn is_best(t: Seq<u8>, purpose: Purpose, i: int, k: int) -> bool {
    &&& 0 <= i < k
    &&& rank_at(t, purpose, i) > 0
    &&& forall|j: int|
        0 <= j < k && #[trigger] rank_at(t, purpose, j) > 0 ==> rank_at(t, purpose, i) <= rank_at(
            t,
            purpose,
            j,
        )
    &&& forall|j: int| 0 <= j < i ==> #[trigger] rank_at(t, purpose, j) != rank_at(t, purpose, i)
}

/// The encoding record of `t` to take for a purpose, if any serves it.
pub open spec fn selected(t: Seq<u8>, purpose: Purpose) -> Option<int> {
    if exists|i: int| is_best(t, purpose, i, encoding_count(t)) {
        Some(choose|i: int| is_best(t, purpose, i, encoding_count(t)))
    } else {
        None
    }
}

/// Among the same records at most one is the one to take.
pub proof fn lemma_best_once(t: Seq<u8>, purpose: Purpose, i: int, j: int, k: int)
    requires
        is_best(t, purpose, i, k),
        is_best(t, purpose, j, k),
    ensures
        i == j,
{
    assert(rank_at(t, purpose, i) <= rank_at(t, purpose, j));
    assert(rank_at(t, purpose, j) <= rank_at(t, purpose, i));
}

/// Picks the encoding record of the table `t` to take for a purpose.
pub fn select(t: &[u8], purpose: Purpose) -> (r: Option<usize>)
    ensures
        match selected(t@, purpose) {
            Some(i) => r == Some(i as usize) && i < encoding_count(t@),
            None => r is None,
        },
{
    let mut best: Option<usize> = None;
    let mut best_rank: u8 = 0;
    let n: usize = encoding_records(t);
    let mut k: usize = 0;
    while k < n
        invariant
            0 <= k <= n,
            n as int == encoding_count(t@),
            match best {
                Some(b) => is_best(t@, purpose, b as int, k as int) && best_rank as int == rank_at(
                    t@,
                    purpose,
                    b as int,
                ),
                None => forall|j: int| 0 <= j < k ==> #[trigger] rank_at(t@, purpose, j) <= 0,
            },
        decreases n - k,
    {
        let r: u8 = match encoding_record(t, k) {
            Some(rec) => rank(purpose, rec.platform_id, rec.encoding_id),
            None => 0,
        };
        if r > 0 && (best.is_none() || r < best_rank) {
            best = Some(k);
            best_rank = r;
        }
        k = k + 1;
    }
    proof {
        match best {
            Some(b) => {
                let c = choose|i: int| is_best(t@, purpose, i, encoding_count(t@));
                lemma_best_once(t@, purpose, b as int, c, n as int);
            },
            None => {
                assert forall|i: int| !is_best(t@, purpose, i, encoding_count(t@)) by {
                    if 0 <= i < n {
                        assert(rank_at(t@, purpose, i) <= 0);
                    }
                }
            },
        }
    }
    best
}

/// The subtable of the table `t` that serves a purpose: the window and kind
/// of the subtable that the selected record points to. None where no record
/// serves, where the record points past the table, and where the subtable
/// does not pass its check.
pub open spec fn chosen(t: Seq<u8>, purpose: Purpose) -> Option<(Seq<u8>, SubtableKind)> {
    match selected(t, purpose) {
        Some(i) => {
            let off = u32_at(t, 4 + 8 * i + 4);
            let w = subtable_window(t.skip(off));
            if off > t.len() || layout_of(w) is None {
                None
            } else {
                Some((w, layout_of(w)->Some_0))
            }
        },
        None => None,
    }
}

/// The glyph of `cp` by the character map table `t`; the missing glyph
/// where no subtable serves.
pub open spec fn table_glyph(t: Seq<u8>, cp: int) -> int {
    match chosen(t, Purpose::Glyphs) {
        Some(p) => glyph_of(p.0, p.1, cp),
        None => 0,
    }
}

/// The glyph of `base` followed by `selector` by the character map table
/// `t`. A sequence with a glyph of its own has that glyph; one that is shown
/// as its base has the glyph of the base; any other is not found.
pub open spec fn table_variation(t: Seq<u8>, base: int, selector: int) -> Option<int> {
    match chosen(t, Purpose::Variations) {
        Some(p) => match variation_in(p.0, p.1, base, selector) {
            Variation::Glyph(g) => Some(g as int),
            Variation::UseDefault => Some(table_glyph(t, base)),
            Variation::Absent => None,
        },
        None => None,
    }
}

/// Reads and checks the subtable of the table `t` that serves a purpose.
pub fn subtable_for<'buf>(t: &'buf [u8], purpose: Purpose) -> (r: Option<CmapSubtable<'buf>>)
    ensures
        match chosen(t@, purpose) {
            Some(p) => r is Some && r->Some_0.window() == p.0 && r->Some_0.spec_kind() == p.1,
            None => r is None,
        },
{
    let len: usize = t.len();
    match select(t, purpose) {
        Some(i) => match encoding_record(t, i) {
            Some(rec) => {
                let off: usize = rec.subtable_offset.as_usize();
                if off > len {
                    return None;
                }
                match CmapSubtable::parse(slice_subrange(t, off, len)) {
                    Ok(sub) => Some(sub),
                    Err(_) => None,
                }
            },
            None => None,
        },
        None => None,
    }
}

/// Finds the glyph of `cp` by the character map table `t`.
pub fn glyph_in_table(t: &[u8], cp: u32) -> (g: u16)
    ensures
        g as int == table_glyph(t@, cp as int),
{
    match subtable_for(t, Purpose::Glyphs) {
        Some(sub) => sub.glyph_index(cp),
        None => NOTDEF,
    }
}

/// Finds the glyph of `base` followed by `selector` by the character map
/// table `t`.
pub fn variation_in_table(t: &[u8], base: u32, selector: u32) -> (r: Result<u16, NotFound>)
    ensures
        match table_variation(t@, base as int, selector as int) {
            Some(g) => r is Ok && r->Ok_0 as int == g,
            None => r is Err,
        },
{
    match subtable_for(t, Purpose::Variations) {
        Some(sub) => match sub.variation(base, selector) {
            Variation::Glyph(g) => Ok(g),
            Variation::UseDefault => Ok(glyph_in_table(t, base)),
            Variation::Absent => Err(NotFound),
        },
        None => Err(NotFound),
    }
}

} // verus!
