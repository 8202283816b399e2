use fontparse::cmap::{encoding_record, encoding_records, PlatformEncodingRecord};
use fontparse::primitive::Offset32;
use fontparse::cmap::{
    glyph_in_table, rank, select, subtable_for, variation_in_table, CmapSubtable, Purpose,
    SubtableKind, Variation,
};
use fontparse::error::{FontParseError, NotFound};
use fontparse::font::Font;
use fontparse::primitive::{get_u16, get_u24, get_u32};
use fontparse::search::Column;

fn be16(v: &mut Vec<u8>, x: u16) {
    v.extend_from_slice(&x.to_be_bytes());
}

fn be24(v: &mut Vec<u8>, x: u32) {
    v.extend_from_slice(&x.to_be_bytes()[1..]);
}

fn be32(v: &mut Vec<u8>, x: u32) {
    v.extend_from_slice(&x.to_be_bytes());
}

/// segments: (start, end, delta, range_offset); glyphs: the glyph array.
fn format4(segments: &[(u16, u16, u16, u16)], glyphs: &[u16]) -> Vec<u8> {
    let n = segments.len();
    let mut v = Vec::new();
    be16(&mut v, 4);
    be16(&mut v, (16 + 8 * n + 2 * glyphs.len()) as u16);
    be16(&mut v, 0);
    be16(&mut v, (2 * n) as u16);
    be16(&mut v, 0);
    be16(&mut v, 0);
    be16(&mut v, 0);
    for s in segments {
        be16(&mut v, s.1);
    }
    be16(&mut v, 0);
    for s in segments {
        be16(&mut v, s.0);
    }
    for s in segments {
        be16(&mut v, s.2);
    }
    for s in segments {
        be16(&mut v, s.3);
    }
    for g in glyphs {
        be16(&mut v, *g);
    }
    v
}

fn format12(groups: &[(u32, u32, u32)]) -> Vec<u8> {
    let mut v = Vec::new();
    be16(&mut v, 12);
    be16(&mut v, 0);
    be32(&mut v, (16 + 12 * groups.len()) as u32);
    be32(&mut v, 0);
    be32(&mut v, groups.len() as u32);
    for g in groups {
        be32(&mut v, g.0);
        be32(&mut v, g.1);
        be32(&mut v, g.2);
    }
    v
}

fn format0(map: &[u8; 256]) -> Vec<u8> {
    let mut v = Vec::new();
    be16(&mut v, 0);
    be16(&mut v, 262);
    be16(&mut v, 0);
    v.extend_from_slice(map);
    v
}

fn format6(first: u16, glyphs: &[u16]) -> Vec<u8> {
    let mut v = Vec::new();
    be16(&mut v, 6);
    be16(&mut v, (10 + 2 * glyphs.len()) as u16);
    be16(&mut v, 0);
    be16(&mut v, first);
    be16(&mut v, glyphs.len() as u16);
    for g in glyphs {
        be16(&mut v, *g);
    }
    v
}

/// One selector with its default ranges (start, additional count) and its
/// mapped bases (base, glyph).
fn format14(selector: u32, ranges: &[(u32, u8)], mapped: &[(u32, u16)]) -> Vec<u8> {
    let mut v = Vec::new();
    be16(&mut v, 14);
    let default_at = 21u32;
    let mapped_at = default_at + 4 + 4 * ranges.len() as u32;
    be32(&mut v, mapped_at + 4 + 5 * mapped.len() as u32);
    be32(&mut v, 1);
    be24(&mut v, selector);
    be32(&mut v, if ranges.is_empty() { 0 } else { default_at });
    be32(&mut v, if mapped.is_empty() { 0 } else { mapped_at });
    be32(&mut v, ranges.len() as u32);
    for r in ranges {
        be24(&mut v, r.0);
        v.push(r.1);
    }
    be32(&mut v, mapped.len() as u32);
    for m in mapped {
        be24(&mut v, m.0);
        be16(&mut v, m.1);
    }
    v
}

fn cmap_table(subtables: &[(u16, u16, Vec<u8>)]) -> Vec<u8> {
    let mut v = Vec::new();
    be16(&mut v, 0);
    be16(&mut v, subtables.len() as u16);
    let mut off = 4 + 8 * subtables.len();
    for s in subtables {
        be16(&mut v, s.0);
        be16(&mut v, s.1);
        be32(&mut v, off as u32);
        off += s.2.len();
    }
    for s in subtables {
        v.extend_from_slice(&s.2);
    }
    v
}

fn font_with(tables: &[(&[u8; 4], Vec<u8>)]) -> Vec<u8> {
    let mut v = vec![0, 1, 0, 0];
    be16(&mut v, tables.len() as u16);
    v.extend_from_slice(&[0; 6]);
    let mut off = 12 + 16 * tables.len();
    for t in tables {
        v.extend_from_slice(t.0);
        be32(&mut v, 0);
        be32(&mut v, off as u32);
        be32(&mut v, t.1.len() as u32);
        off += t.1.len();
    }
    for t in tables {
        v.extend_from_slice(&t.1);
    }
    v
}

fn segments_sample() -> Vec<u8> {
    format4(&[(0, 127, 0, 0), (128, 255, 0, 4), (0xFFFF, 0xFFFF, 0, 0)], &[5u16; 128])
}

#[test]
fn format4_segments_and_glyph_array() {
    let data = font_with(&[(b"cmap", cmap_table(&[(3, 1, segments_sample())]))]);
    let font = Font::parse(&data, &data).unwrap();
    assert_eq!(font.glyph_index(200), 5);
    assert_eq!(font.glyph_index(128), 5);
    assert_eq!(font.glyph_index(255), 5);
    assert_eq!(font.glyph_index(0x10000), 0);
    assert_eq!(font.glyph_index(65), 65);
    assert_eq!(font.glyph_index(127), 127);
    assert_eq!(font.glyph_index(256), 0);
    assert_eq!(font.glyph_index(0xFFFE), 0);
    assert_eq!(font.glyph_index(0xFFFF), 0xFFFF);
    assert_eq!(font.glyph_index(u32::MAX), 0);
}

#[test]
fn format4_delta_wraps_and_array_bounds() {
    // The delta is added modulo 65536; a zero in the glyph array stays
    // missing; a slot past the end of the subtable is missing too.
    let sub = format4(
        &[(10, 20, 0xFFFF, 0), (30, 40, 3, 4), (50, 60, 0, 200), (0xFFFF, 0xFFFF, 1, 0)],
        &[0, 0, 7, 0, 0, 0, 0, 0, 0, 0, 9],
    );
    let s = CmapSubtable::parse(&sub).unwrap();
    assert_eq!(s.kind(), SubtableKind::SegmentDeltas { seg_count: 4 });
    assert_eq!(s.glyph_index(10), 9);
    assert_eq!(s.glyph_index(20), 19);
    assert_eq!(s.glyph_index(9), 0);
    assert_eq!(s.glyph_index(21), 0);
    // Segment 1 has its range offset, 4, at 16 + 6 * 4 + 2 = 42: code 30 + k
    // reads the slot at 46 + 2 * k, and the glyph array starts at 48.
    assert_eq!(s.glyph_index(30), 0);
    assert_eq!(s.glyph_index(31), 0);
    assert_eq!(s.glyph_index(33), 10);
    assert_eq!(s.glyph_index(40), 0);
    assert_eq!(s.glyph_index(50), 0);
    assert_eq!(s.glyph_index(60), 0);
    assert_eq!(s.glyph_index(0xFFFF), 0);
    let mut extended = sub.clone();
    extended.extend_from_slice(&[0x12; 400]);
    let t = CmapSubtable::parse(&extended).unwrap();
    assert_eq!(t.glyph_index(50), 0);
    for cp in 0..70u32 {
        assert_eq!(s.glyph_index(cp), t.glyph_index(cp));
    }
}

#[test]
fn format4_glyph_array_lookup_exact() {
    // Two segments; the first reads the glyph array: its range offset stands
    // at 16 + 6 * 2 = 28 and is 4, so code 100 + k reads slot 32 + 2 * k.
    let sub = format4(&[(100, 102, 2, 4), (0xFFFF, 0xFFFF, 1, 0)], &[11, 0, 0xFFFF]);
    let s = CmapSubtable::parse(&sub).unwrap();
    assert_eq!(s.glyph_index(100), 13);
    assert_eq!(s.glyph_index(101), 0);
    assert_eq!(s.glyph_index(102), 1);
    assert_eq!(s.glyph_index(103), 0);
}

#[test]
fn format4_unsorted_end_codes_are_refused() {
    let sub = format4(&[(0, 127, 0, 0), (10, 20, 0, 0), (0xFFFF, 0xFFFF, 1, 0)], &[]);
    assert!(matches!(CmapSubtable::parse(&sub), Err(FontParseError::UnexpectedEof)));
    let data = font_with(&[(b"cmap", cmap_table(&[(3, 1, sub)]))]);
    let font = Font::parse(&data, &data).unwrap();
    assert!(font.cmap_table().is_some());
    assert!(font.cmap_subtable().is_none());
    assert_eq!(font.glyph_index(15), 0);
    assert_eq!(font.unicode_variation_sequence(15, 0xFE0F), Err(NotFound));
}

#[test]
fn format4_truncated_is_refused() {
    let sub = segments_sample();
    assert!(CmapSubtable::parse(&sub[..sub.len() - 1]).is_ok());
    let short = format4(&[(0, 127, 0, 0), (0xFFFF, 0xFFFF, 1, 0)], &[]);
    assert!(CmapSubtable::parse(&short).is_ok());
    assert!(CmapSubtable::parse(&short[..31]).is_err());
    assert!(CmapSubtable::parse(&short[..7]).is_err());
    assert!(CmapSubtable::parse(&[0]).is_err());
    assert!(CmapSubtable::parse(&[0, 2, 0, 0]).is_err());
}

#[test]
fn format12_groups() {
    let sub = format12(&[(0x1F600, 0x1F64F, 300)]);
    let data = font_with(&[(b"cmap", cmap_table(&[(0, 4, sub)]))]);
    let font = Font::parse(&data, &data).unwrap();
    assert_eq!(font.glyph_index(0x1F600), 300);
    assert_eq!(font.glyph_index(0x1F64F), 300 + 79);
    assert_eq!(font.glyph_index(0x1F650), 0);
    assert_eq!(font.glyph_index(0x1F5FF), 0);
    assert_eq!(font.glyph_index(0), 0);
    assert_eq!(font.glyph_index(u32::MAX), 0);
}

#[test]
fn format12_several_groups_and_overflow() {
    let sub = format12(&[(10, 19, 1), (30, 39, 100), (50, 59, 0xFFFB), (100, 100, 0x1_0000)]);
    let s = CmapSubtable::parse(&sub).unwrap();
    assert_eq!(s.kind(), SubtableKind::SegmentedCoverage { num_groups: 4 });
    assert_eq!(s.glyph_index(9), 0);
    assert_eq!(s.glyph_index(10), 1);
    assert_eq!(s.glyph_index(19), 10);
    assert_eq!(s.glyph_index(20), 0);
    assert_eq!(s.glyph_index(35), 105);
    assert_eq!(s.glyph_index(54), 0xFFFF);
    assert_eq!(s.glyph_index(55), 0);
    assert_eq!(s.glyph_index(100), 0);
    assert_eq!(s.glyph_index(101), 0);
    let unsorted = format12(&[(30, 39, 100), (10, 19, 1)]);
    assert!(CmapSubtable::parse(&unsorted).is_err());
    assert!(CmapSubtable::parse(&sub[..sub.len() - 1]).is_err());
    let empty = format12(&[]);
    let none = CmapSubtable::parse(&empty).unwrap();
    assert_eq!(none.glyph_index(10), 0);
}

#[test]
fn format0_and_format6() {
    let mut map = [0u8; 256];
    map[65] = 3;
    map[255] = 200;
    let s0 = format0(&map);
    let s = CmapSubtable::parse(&s0).unwrap();
    assert_eq!(s.kind(), SubtableKind::ByteEncoding);
    assert_eq!(s.glyph_index(65), 3);
    assert_eq!(s.glyph_index(255), 200);
    assert_eq!(s.glyph_index(0), 0);
    assert_eq!(s.glyph_index(256), 0);
    assert_eq!(s.glyph_index(65 + 256), 0);
    assert!(CmapSubtable::parse(&s0[..261]).is_err());

    let s6 = format6(0x20, &[7, 8, 0x1234]);
    let s = CmapSubtable::parse(&s6).unwrap();
    assert_eq!(s.kind(), SubtableKind::Trimmed { first_code: 0x20, entry_count: 3 });
    assert_eq!(s.glyph_index(0x1F), 0);
    assert_eq!(s.glyph_index(0x20), 7);
    assert_eq!(s.glyph_index(0x22), 0x1234);
    assert_eq!(s.glyph_index(0x23), 0);
    assert_eq!(s.glyph_index(0x1_0020), 0);
    assert!(CmapSubtable::parse(&s6[..15]).is_err());
    let edge = format6(0xFFFF, &[1, 2]);
    let s = CmapSubtable::parse(&edge).unwrap();
    assert_eq!(s.glyph_index(0xFFFF), 1);
    assert_eq!(s.glyph_index(0x1_0000), 2);
}

#[test]
fn unknown_format_is_refused() {
    let mut v = Vec::new();
    be16(&mut v, 2);
    v.extend_from_slice(&[0; 600]);
    assert!(matches!(CmapSubtable::parse(&v), Err(FontParseError::UnexpectedEof)));
}

#[test]
fn variation_sequences() {
    let uvs = format14(0xFE0F, &[(0x30, 9)], &[(0x41, 42)]);
    let main = format4(&[(0x30, 0x5A, 100, 0), (0xFFFF, 0xFFFF, 1, 0)], &[]);
    let data = font_with(&[
        (b"head", vec![0; 7]),
        (b"cmap", cmap_table(&[(3, 1, main), (0, 5, uvs)])),
    ]);
    let font = Font::parse(&data, &data).unwrap();
    assert_eq!(font.unicode_variation_sequence(0x0041, 0xFE0F), Ok(42));
    assert_eq!(font.unicode_variation_sequence(0x0042, 0xFE0F), Err(NotFound));
    assert_eq!(font.unicode_variation_sequence(0x0041, 0xFE0E), Err(NotFound));
    assert_eq!(font.unicode_variation_sequence(0x0030, 0xFE0F), Ok(0x30 + 100));
    assert_eq!(font.unicode_variation_sequence(0x0039, 0xFE0F), Ok(0x39 + 100));
    assert_eq!(font.unicode_variation_sequence(0x003A, 0xFE0F), Err(NotFound));
    assert_eq!(font.unicode_variation_sequence(0x002F, 0xFE0F), Err(NotFound));
    assert_eq!(font.unicode_variation_sequence(u32::MAX, 0xFE0F), Err(NotFound));
    assert_eq!(font.unicode_variation_sequence(0x41, u32::MAX), Err(NotFound));
    assert_eq!(font.glyph_index(0x41), 0x41 + 100);
}

#[test]
fn variation_subtable_directly() {
    let uvs = format14(0xE0100, &[(0x4E00, 2), (0x5000, 0)], &[(0x20, 0), (0x30, 77), (0x40, 9)]);
    let s = CmapSubtable::parse(&uvs).unwrap();
    assert_eq!(s.kind(), SubtableKind::VariationSequences { num_records: 1 });
    assert_eq!(s.glyph_index(0x30), 0);
    assert_eq!(s.variation(0x30, 0xE0100), Variation::Glyph(77));
    assert_eq!(s.variation(0x20, 0xE0100), Variation::Glyph(0));
    assert_eq!(s.variation(0x40, 0xE0100), Variation::Glyph(9));
    assert_eq!(s.variation(0x31, 0xE0100), Variation::Absent);
    assert_eq!(s.variation(0x4E00, 0xE0100), Variation::UseDefault);
    assert_eq!(s.variation(0x4E02, 0xE0100), Variation::UseDefault);
    assert_eq!(s.variation(0x4E03, 0xE0100), Variation::Absent);
    assert_eq!(s.variation(0x5000, 0xE0100), Variation::UseDefault);
    assert_eq!(s.variation(0x5001, 0xE0100), Variation::Absent);
    assert_eq!(s.variation(0x4DFF, 0xE0100), Variation::Absent);
    assert_eq!(s.variation(0x30, 0xE0101), Variation::Absent);
    let unsorted = format14(0xFE0F, &[], &[(0x41, 1), (0x40, 2)]);
    assert!(CmapSubtable::parse(&unsorted).is_err());
    assert!(CmapSubtable::parse(&uvs[..uvs.len() - 1]).is_err());
    let groups = format12(&[(1, 2, 3)]);
    let other = CmapSubtable::parse(&groups).unwrap();
    assert_eq!(other.variation(1, 0xFE0F), Variation::Absent);
}

#[test]
fn record_preference() {
    assert_eq!(rank(Purpose::Glyphs, 0, 4), 1);
    assert_eq!(rank(Purpose::Glyphs, 3, 10), 2);
    assert_eq!(rank(Purpose::Glyphs, 0, 3), 3);
    assert_eq!(rank(Purpose::Glyphs, 3, 1), 4);
    assert_eq!(rank(Purpose::Glyphs, 0, 1), 5);
    assert_eq!(rank(Purpose::Glyphs, 0, 5), 0);
    assert_eq!(rank(Purpose::Glyphs, 1, 0), 0);
    assert_eq!(rank(Purpose::Variations, 0, 5), 1);
    assert_eq!(rank(Purpose::Variations, 0, 4), 0);

    let bmp = format4(&[(65, 65, 0, 0), (0xFFFF, 0xFFFF, 1, 0)], &[]);
    let full = format12(&[(65, 65, 900)]);
    let t = cmap_table(&[(1, 0, bmp.clone()), (3, 1, bmp.clone()), (0, 4, full.clone()), (0, 4, bmp.clone())]);
    assert_eq!(select(&t, Purpose::Glyphs), Some(2));
    assert_eq!(select(&t, Purpose::Variations), None);
    assert_eq!(glyph_in_table(&t, 65), 900);
    let t = cmap_table(&[(1, 0, full.clone()), (3, 1, bmp.clone()), (3, 1, full.clone())]);
    assert_eq!(select(&t, Purpose::Glyphs), Some(1));
    assert_eq!(glyph_in_table(&t, 65), 65);
    let t = cmap_table(&[(1, 0, full.clone())]);
    assert_eq!(select(&t, Purpose::Glyphs), None);
    assert_eq!(glyph_in_table(&t, 65), 0);
    assert!(subtable_for(&t, Purpose::Glyphs).is_none());
    assert_eq!(variation_in_table(&t, 65, 0xFE0F), Err(NotFound));
    assert_eq!(select(&[0, 0, 0], Purpose::Glyphs), None);
    assert_eq!(select(&[0, 0, 0, 1, 0, 0, 0, 4], Purpose::Glyphs), None);
}

#[test]
fn subtable_offset_past_the_table() {
    let mut t = Vec::new();
    be16(&mut t, 0);
    be16(&mut t, 1);
    be16(&mut t, 0);
    be16(&mut t, 4);
    be32(&mut t, 13);
    assert_eq!(select(&t, Purpose::Glyphs), Some(0));
    assert_eq!(glyph_in_table(&t, 65), 0);
    let mut u = t.clone();
    u[11] = 12;
    assert_eq!(glyph_in_table(&u, 65), 0);
}

#[test]
fn font_without_cmap() {
    let data = font_with(&[(b"head", vec![1, 2, 3])]);
    let font = Font::parse(&data, &data).unwrap();
    assert!(font.cmap_table().is_none());
    assert!(font.cmap_subtable().is_none());
    assert_eq!(font.glyph_index(65), 0);
    assert_eq!(font.unicode_variation_sequence(65, 0xFE0F), Err(NotFound));
}

#[test]
fn column_search() {
    let mut v = vec![0xAA, 0xBB];
    for k in [3u16, 5, 5, 9] {
        be16(&mut v, k);
        v.push(0xEE);
    }
    let col = Column { base: 2, stride: 3, field: 0, width: 2, count: 4 };
    assert!(col.is_sorted(&v));
    assert_eq!(col.read(&v, 3), 9);
    assert_eq!(col.lower_bound(&v, 0), 0);
    assert_eq!(col.lower_bound(&v, 3), 0);
    assert_eq!(col.lower_bound(&v, 4), 1);
    assert_eq!(col.lower_bound(&v, 5), 1);
    assert_eq!(col.lower_bound(&v, 6), 3);
    assert_eq!(col.lower_bound(&v, 9), 3);
    assert_eq!(col.lower_bound(&v, 10), 4);
    v[2] = 1;
    assert!(!col.is_sorted(&v));
    let none = Column { base: 0, stride: 3, field: 0, width: 2, count: 0 };
    assert!(none.is_sorted(&v));
    assert_eq!(none.lower_bound(&v, 1), 0);
}

#[test]
fn reads_at_a_position() {
    let v = [0u8, 0x12, 0x34, 0x56, 0x78, 0x9A];
    assert_eq!(get_u16(&v, 1), 0x1234);
    assert_eq!(get_u24(&v, 1), 0x12_3456);
    assert_eq!(get_u32(&v, 2), 0x3456_789A);
    assert_eq!(get_u16(&v, 4), 0x789A);
}

#[test]
fn encoding_records_decode() {
    let t = cmap_table(&[(3, 10, vec![1, 2, 3]), (0, 5, vec![4])]);
    assert_eq!(encoding_records(&t), 2);
    assert_eq!(
        encoding_record(&t, 0),
        Some(PlatformEncodingRecord {
            platform_id: 3,
            encoding_id: 10,
            subtable_offset: Offset32(20)
        })
    );
    assert_eq!(
        encoding_record(&t, 1),
        Some(PlatformEncodingRecord { platform_id: 0, encoding_id: 5, subtable_offset: Offset32(23) })
    );
    assert_eq!(encoding_record(&t, 2), None);
    assert_eq!(encoding_records(&t[..19]), 0);
    assert_eq!(encoding_record(&t[..19], 0), None);
    assert_eq!(encoding_records(&[]), 0);
}
