use fontparse::decode::{DynamicSize, StaticSize};
use fontparse::error::FontParseError;
use fontparse::font::{Font, FontTable, FontVersion};
use fontparse::primitive::{
    read_i8, read_u8, Fixed, LongDateTime, Offset16, Offset32, Primitive, Tag, F2Dot14, FWord,
    UFWord, TAG_CMAP, TAG_HEAD, U24,
};

fn header(magic: [u8; 4], count: u16) -> Vec<u8> {
    let mut v = Vec::new();
    v.extend_from_slice(&magic);
    v.extend_from_slice(&count.to_be_bytes());
    v.extend_from_slice(&[0, 0, 0, 0, 0, 0]);
    v
}

fn push_record(v: &mut Vec<u8>, tag: &[u8; 4], offset: u32, length: u32) {
    v.extend_from_slice(tag);
    v.extend_from_slice(&[0xAA, 0xBB, 0xCC, 0xDD]);
    v.extend_from_slice(&offset.to_be_bytes());
    v.extend_from_slice(&length.to_be_bytes());
}

fn sample() -> Vec<u8> {
    let mut v = header([0, 1, 0, 0], 3);
    push_record(&mut v, b"cmap", 60, 4);
    push_record(&mut v, b"head", 64, 4);
    push_record(&mut v, b"maxp", 68, 2);
    v.extend_from_slice(&[1, 2, 3, 4, 5, 6, 7, 8, 9, 10]);
    v
}

#[test]
fn it_works() {}

#[test]
fn short_buffers_fail() {
    let full = sample();
    for n in 0..12 {
        let r = Font::parse(&full[..n], &full[..n]);
        assert!(matches!(r, Err(FontParseError::UnexpectedEof)));
    }
    assert!(Font::parse(&full[..12], &full[..12]).is_err());
    assert!(Font::parse(&full[..59], &full[..59]).is_err());
    assert!(Font::parse(&full[..60], &full[..60]).is_ok());
}

#[test]
fn empty_directory_parses() {
    let v = header(*b"OTTO", 0);
    let font = Font::parse(&v, &v).unwrap();
    assert_eq!(font.version(), FontVersion::OpenType);
    assert_eq!(font.num_tables(), 0);
    assert!(font.tables().is_empty());
    assert!(font.table(Tag(TAG_CMAP)).is_none());
    assert!(font.table_iter().next().is_none());
}

#[test]
fn unknown_magic_fails() {
    let v = header(*b"ttcf", 0);
    assert!(matches!(Font::parse(&v, &v), Err(FontParseError::UnexpectedEof)));
    assert!(matches!(FontVersion::parse(&[0, 1, 0]), Err(FontParseError::UnexpectedEof)));
    let (ver, rest) = FontVersion::parse(&[0, 1, 0, 0, 9]).unwrap();
    assert_eq!(ver, FontVersion::TrueType);
    assert_eq!(rest, &[9]);
}

#[test]
fn tables_lists_each_record_and_restarts() {
    let v = sample();
    let font = Font::parse(&v, &v).unwrap();
    assert_eq!(font.version(), FontVersion::TrueType);
    assert_eq!(font.num_tables(), 3);
    let first = font.tables();
    let second = font.tables();
    assert_eq!(first.len(), 3);
    assert_eq!(second.len(), 3);
    let expect: [(&[u8; 4], usize); 3] = [(b"cmap", 60), (b"head", 64), (b"maxp", 68)];
    for i in 0..3 {
        let a = first[i].unwrap();
        let b = second[i].unwrap();
        assert_eq!(&a.tag.0, expect[i].0);
        assert_eq!(a.offset, expect[i].1);
        assert_eq!(a.data, &v[expect[i].1..]);
        assert_eq!(a.tag.0, b.tag.0);
        assert_eq!(a.offset, b.offset);
        assert_eq!(a.data, b.data);
    }
}

#[test]
fn iterator_walks_the_directory() {
    let v = sample();
    let font = Font::parse(&v, &v).unwrap();
    let mut it = font.table_iter();
    let mut seen = Vec::new();
    while let Some(t) = it.next() {
        seen.push(t.unwrap().offset);
    }
    assert_eq!(seen, vec![60, 64, 68]);
    assert!(it.next().is_none());
    let mut again = font.table_iter();
    assert_eq!(again.next().unwrap().unwrap().offset, 60);
}

#[test]
fn bad_offset_fails_at_its_record_only() {
    let mut v = header([0, 1, 0, 0], 3);
    push_record(&mut v, b"cmap", 60, 4);
    push_record(&mut v, b"head", 61, 4);
    push_record(&mut v, b"maxp", 60, 2);
    let font = Font::parse(&v, &v).unwrap();
    let list = font.tables();
    assert!(list[0].is_ok());
    assert!(matches!(list[1], Err(FontParseError::UnexpectedEof)));
    assert!(list[2].is_ok());
    assert_eq!(list[0].unwrap().data.len(), 0);
    let mut it = font.table_iter();
    assert!(it.next().unwrap().is_ok());
    assert!(it.next().unwrap().is_err());
    assert!(it.next().unwrap().is_ok());
    assert!(it.next().is_none());
    assert!(font.table(Tag(TAG_HEAD)).is_none());
    assert_eq!(font.table(Tag(*b"maxp")).unwrap().offset, 60);
}

#[test]
fn lookup_by_tag_round_trip() {
    let v = sample();
    let font = Font::parse(&v, &v).unwrap();
    assert_eq!(font.table(Tag(TAG_CMAP)).unwrap().offset, 60);
    assert_eq!(font.table(Tag(TAG_HEAD)).unwrap().offset, 64);
    let maxp = font.table(Tag(*b"maxp")).unwrap();
    assert_eq!(maxp.offset, 68);
    assert_eq!(maxp.data, &[9, 10]);
    assert_eq!(maxp.tag.0, *b"maxp");
    assert!(font.table(Tag(*b"glyf")).is_none());
}

#[test]
fn offsets_count_from_the_buffer_not_the_window() {
    let mut v = vec![7u8; 5];
    let mut font_bytes = header(*b"OTTO", 1);
    push_record(&mut font_bytes, b"head", 2, 3);
    v.extend_from_slice(&font_bytes);
    let font = Font::parse(&v, &v[5..]).unwrap();
    let t = font.table(Tag(TAG_HEAD)).unwrap();
    assert_eq!(t.offset, 2);
    assert_eq!(t.data, &v[2..]);
}

#[test]
fn font_table_parse_reads_offset_at_byte_eight() {
    let buffer = [0u8; 10];
    let mut rec = Vec::new();
    push_record(&mut rec, b"name", 10, 0xFFFF_FFFF);
    let t = FontTable::parse(&buffer, &rec).unwrap();
    assert_eq!(t.offset, 10);
    assert!(t.data.is_empty());
    assert!(FontTable::parse(&buffer, &rec[..15]).is_err());
    let mut far = Vec::new();
    push_record(&mut far, b"name", 11, 0);
    assert!(matches!(FontTable::parse(&buffer, &far), Err(FontParseError::UnexpectedEof)));
}

#[test]
fn integers_decode_big_endian() {
    let bytes = [0x80u8, 0x01, 0x02, 0x03, 0x04, 0x05, 0x06, 0x07, 0x08];
    assert_eq!(read_u8(&bytes), 0x80);
    assert_eq!(read_i8(&bytes), -128);
    assert_eq!(read_i8(&[0x7F]), 127);
    assert_eq!(read_i8(&[0xFF]), -1);
    assert_eq!(u8::parse(&bytes).unwrap(), (0x80, &bytes[1..]));
    assert_eq!(i8::parse(&bytes).unwrap(), (-128, &bytes[1..]));
    assert_eq!(u16::parse(&bytes).unwrap(), (0x8001, &bytes[2..]));
    assert_eq!(i16::parse(&bytes).unwrap(), (-32767, &bytes[2..]));
    assert_eq!(u32::parse(&bytes).unwrap(), (0x8001_0203, &bytes[4..]));
    assert_eq!(i32::parse(&bytes).unwrap(), (-2147417597, &bytes[4..]));
    assert_eq!(U24::parse(&bytes).unwrap(), (U24(0x80_0102), &bytes[3..]));
    assert_eq!(
        LongDateTime::parse(&bytes).unwrap(),
        (LongDateTime(0x8001_0203_0405_0607), &bytes[8..])
    );
    assert_eq!(FWord::parse(&bytes).unwrap().0, FWord(-32767));
    assert_eq!(UFWord::parse(&bytes).unwrap().0, UFWord(0x8001));
    assert_eq!(F2Dot14::parse(&bytes).unwrap().0, F2Dot14(-32767));
    assert_eq!(Offset16::parse(&bytes).unwrap().0.as_usize(), 0x8001);
    assert_eq!(Offset32::parse(&bytes).unwrap().0.as_usize(), 0x8001_0203);
}

#[test]
fn short_input_is_the_only_failure() {
    assert!(matches!(u8::parse(&[]), Err(FontParseError::UnexpectedEof)));
    assert!(matches!(i8::parse(&[]), Err(FontParseError::UnexpectedEof)));
    assert!(matches!(u16::parse(&[1]), Err(FontParseError::UnexpectedEof)));
    assert!(matches!(i16::parse(&[1]), Err(FontParseError::UnexpectedEof)));
    assert!(matches!(U24::parse(&[1, 2]), Err(FontParseError::UnexpectedEof)));
    assert!(matches!(u32::parse(&[1, 2, 3]), Err(FontParseError::UnexpectedEof)));
    assert!(matches!(i32::parse(&[1, 2, 3]), Err(FontParseError::UnexpectedEof)));
    assert!(matches!(Fixed::parse(&[1, 2, 3]), Err(FontParseError::UnexpectedEof)));
    assert!(matches!(Tag::parse(&[1, 2, 3]), Err(FontParseError::UnexpectedEof)));
    assert!(matches!(LongDateTime::parse(&[0; 7]), Err(FontParseError::UnexpectedEof)));
    assert!(matches!(Offset32::parse(&[0; 3]), Err(FontParseError::UnexpectedEof)));
    assert_eq!(u16::parse(&[0xFF, 0xFF]).unwrap(), (0xFFFF, &[][..]));
    assert_eq!(<u32 as Primitive>::SIZE, 4);
    assert_eq!(<U24 as Primitive>::SIZE, 3);
    assert_eq!(<LongDateTime as Primitive>::SIZE, 8);
    assert_eq!(FontParseError::UnexpectedEof.message(), "unexpected end of file");
}

#[test]
fn fixed_decodes_to_one_and_a_half() {
    let (value, rest) = Fixed::parse(&[0x00, 0x01, 0x80, 0x00]).unwrap();
    assert!(rest.is_empty());
    assert_eq!(value, Fixed(0x0001_8000));
    assert_eq!(value.0 as f64 / 65536.0, 1.5);
    let (neg, _) = Fixed::parse(&[0xFF, 0xFF, 0x80, 0x00]).unwrap();
    assert_eq!(neg.0 as f64 / 65536.0, -0.5);
    let (f, _) = F2Dot14::parse(&[0x60, 0x00]).unwrap();
    assert_eq!(f.0 as f64 / 16384.0, 1.5);
}

#[test]
fn tags_compare_by_bytes() {
    let (tag, rest) = Tag::parse(b"cmapXY").unwrap();
    assert_eq!(tag.0, TAG_CMAP);
    assert_eq!(rest, b"XY");
    assert!(tag.same(&Tag(TAG_CMAP)));
    assert!(!tag.same(&Tag(TAG_HEAD)));
    assert_eq!(tag.as_u32(), 0x636D_6170);
    assert!(tag.is_printable());
    assert!(!Tag([0, 1, 0, 0]).is_printable());
    assert!(!Tag([b'a', b'b', b'c', 127]).is_printable());
    assert_eq!(U24::from(5u32), U24(5));
    assert_eq!(Offset32::from(9u32).as_usize(), 9);
}

fn expected_name(bytes: [u8; 4]) -> String {
    let mut s = String::from("Tag(\"");
    for b in bytes {
        if b == b'"' || b == b'\\' {
            s.push('\\');
        }
        s.push(b as char);
    }
    s.push_str("\")");
    s
}

#[test]
fn tag_rendering() {
    assert_eq!(Tag(TAG_CMAP).debug_string(), "Tag(\"cmap\")");
    assert_eq!(Tag(*b"OS/2").debug_string(), "Tag(\"OS/2\")");
    assert_eq!(Tag(*b"cvt ").debug_string(), "Tag(\"cvt \")");
    assert_eq!(Tag([0, 1, 0, 0]).debug_string(), "Tag(0x00010000)");
    assert_eq!(Tag([0xAB, 0xCD, 0xEF, 0x09]).debug_string(), "Tag(0xABCDEF09)");
    assert_eq!(Tag([b'a', b'b', b'c', 127]).debug_string(), "Tag(0x6162637F)");
    assert_eq!(Tag([b'a', b'b', b'c', 31]).debug_string(), "Tag(0x6162631F)");
    assert_eq!(Tag(*b"a\"b\\").debug_string(), "Tag(\"a\\\"b\\\\\")");
    for b in 32u8..=126 {
        let bytes = [b, b'x', b, b'\''];
        assert_eq!(Tag(bytes).debug_string(), expected_name(bytes));
    }
}

#[test]
fn directory_entry_decodes_all_fields() {
    let mut rec = Vec::new();
    push_record(&mut rec, b"glyf", 0x0102_0304, 0x0A0B_0C0D);
    rec.push(0x77);
    let (entry, rest) = fontparse::font::TableDirectoryEntry::parse(&rec).unwrap();
    assert_eq!(entry.tag.0, *b"glyf");
    assert_eq!(entry.checksum, 0xAABB_CCDD);
    assert_eq!(entry.offset, Offset32(0x0102_0304));
    assert_eq!(entry.length, 0x0A0B_0C0D);
    assert_eq!(rest, &[0x77]);
    assert!(matches!(
        fontparse::font::TableDirectoryEntry::parse(&rec[..15]),
        Err(FontParseError::UnexpectedEof)
    ));
}

#[test]
fn encoded_sizes() {
    assert_eq!(<u8 as Primitive>::SIZE, 1);
    assert_eq!(<i8 as Primitive>::SIZE, 1);
    assert_eq!(<u16 as Primitive>::SIZE, 2);
    assert_eq!(<i16 as Primitive>::SIZE, 2);
    assert_eq!(<i32 as Primitive>::SIZE, 4);
    assert_eq!(<Fixed as Primitive>::SIZE, 4);
    assert_eq!(<FWord as Primitive>::SIZE, 2);
    assert_eq!(<UFWord as Primitive>::SIZE, 2);
    assert_eq!(<F2Dot14 as Primitive>::SIZE, 2);
    assert_eq!(<Offset16 as Primitive>::SIZE, 2);
    assert_eq!(<Offset32 as Primitive>::SIZE, 4);
    assert_eq!(<Tag as Primitive>::SIZE, 4);
    assert_eq!(<FontTable as StaticSize>::SIZE, 16);
    assert_eq!(<fontparse::font::TableDirectoryEntry as StaticSize>::SIZE, 16);
    let buffer = [0u8; 4];
    let rec = [0u8; 16];
    let table = FontTable::parse(&buffer, &rec).unwrap();
    assert_eq!(table.size(), 16);
}

#[test]
fn tags_are_equal_by_bytes() {
    assert_eq!(Tag(TAG_CMAP), Tag(*b"cmap"));
    assert_ne!(Tag(TAG_CMAP), Tag(TAG_HEAD));
    let (tag, _) = Tag::parse(b"head").unwrap();
    assert!(tag == Tag(TAG_HEAD));
}
