use byteorder::{ByteOrder, BE};
use vstd::prelude::*;
use vstd::slice::slice_subrange;
use vstd::std_specs::convert::FromSpecImpl;
use crate::error::FontParseError;

verus! {

/// The unsigned number that the first two bytes spell, most significant first.
pub open spec fn be16(s: Seq<u8>) -> int {
    s[0] as int * 0x100 + s[1] as int
}

/// The unsigned number that the first three bytes spell, most significant first.
pub open spec fn be24(s: Seq<u8>) -> int {
    s[0] as int * 0x1_0000 + s[1] as int * 0x100 + s[2] as int
}

/// The unsigned number that the first four bytes spell, most significant first.
pub open spec fn be32(s: Seq<u8>) -> int {
    s[0] as int * 0x100_0000 + s[1] as int * 0x1_0000 + s[2] as int * 0x100 + s[3] as int
}

/// The unsigned number that the first eight bytes spell, most significant first.
pub open spec fn be64(s: Seq<u8>) -> int {
    be32(s) * 0x1_0000_0000 + be32(s.skip(4))
}

/// The two's-complement reading of an unsigned number below `modulus`: the
/// upper half of the range stands for the negative numbers.
pub open spec fn signed(value: int, modulus: int) -> int {
    if 2 * value >= modulus {
        value - modulus
    } else {
        value
    }
}

/// `byteorder::BigEndian::read_u16`: the first two bytes of `buf` read as an
/// unsigned big-endian number. It panics on a shorter slice.
#[verifier::external_body]
pub(crate) fn be_read_u16(buf: &[u8]) -> (v: u16)
    requires
        buf@.len() >= 2,
    ensures
        v as int == be16(buf@),
{
    BE::read_u16(buf)
}

/// `byteorder::ByteOrder::read_i16` for `BigEndian`: the first two bytes of
/// `buf` read as a big-endian number in two's complement. It panics on a
/// shorter slice.
#[verifier::external_body]
pub(crate) fn be_read_i16(buf: &[u8]) -> (v: i16)
    requires
        buf@.len() >= 2,
    ensures
        v as int == signed(be16(buf@), 0x1_0000),
{
    BE::read_i16(buf)
}

/// `byteorder::ByteOrder::read_u24` for `BigEndian`: the first three bytes of
/// `buf` read as an unsigned big-endian number. It panics on a shorter slice.
#[verifier::external_body]
pub(crate) fn be_read_u24(buf: &[u8]) -> (v: u32)
    requires
        buf@.len() >= 3,
    ensures
        v as int == be24(buf@),
{
    BE::read_u24(buf)
}

/// `byteorder::BigEndian::read_u32`: the first four bytes of `buf` read as an
/// unsigned big-endian number. It panics on a shorter slice.
#[verifier::external_body]
pub(crate) fn be_read_u32(buf: &[u8]) -> (v: u32)
    requires
        buf@.len() >= 4,
    ensures
        v as int == be32(buf@),
{
    BE::read_u32(buf)
}

/// `byteorder::ByteOrder::read_i32` for `BigEndian`: the first four bytes of
/// `buf` read as a big-endian number in two's complement. It panics on a
/// shorter slice.
#[verifier::external_body]
pub(crate) fn be_read_i32(buf: &[u8]) -> (v: i32)
    requires
        buf@.len() >= 4,
    ensures
        v as int == signed(be32(buf@), 0x1_0000_0000),
{
    BE::read_i32(buf)
}

/// `byteorder::BigEndian::read_u64`: the first eight bytes of `buf` read as an
/// unsigned big-endian number. It panics on a shorter slice.
#[verifier::external_body]
pub(crate) fn be_read_u64(buf: &[u8]) -> (v: u64)
    requires
        buf@.len() >= 8,
    ensures
        v as int == be64(buf@),
{
    BE::read_u64(buf)
}

/// The first byte of `buf`.
pub fn read_u8(buf: &[u8]) -> (v: u8)
    requires
        buf@.len() >= 1,
    ensures
        v == buf@[0],
{
    buf[0]
}

/// The first byte of `buf` in two's complement.
pub fn read_i8(buf: &[u8]) -> (v: i8)
    requires
        buf@.len() >= 1,
    ensures
        v as int == signed(buf@[0] as int, 0x100),
{
    let b: u8 = buf[0];
    if b >= 0x80 {
        (b as i16 - 0x100) as i8
    } else {
        b as i8
    }
}

/// A value with a fixed-width big-endian encoding.
pub trait Primitive: Sized {
    /// The number of bytes of the encoding.
    const SIZE: usize;

    /// The number of bytes of the encoding, as contracts speak of it.
    spec fn width() -> nat;

    /// Whether `value` is what the first `width()` bytes of `bytes` encode.
    spec fn decodes(bytes: Seq<u8>, value: Self) -> bool;

    /// Decodes a value from the front of `buffer` and returns it with the rest
    /// of the buffer. Fails exactly when the buffer is shorter than the encoding.
    fn parse(buffer: &[u8]) -> (r: Result<(Self, &[u8]), FontParseError>)
        ensures
            buffer@.len() < Self::width() ==> r == Err::<(Self, &[u8]), _>(
                FontParseError::UnexpectedEof,
            ),
            buffer@.len() >= Self::width() ==> r is Ok && Self::decodes(buffer@, r->Ok_0.0)
                && r->Ok_0.1@ == buffer@.skip(Self::width() as int),
    ;
}

impl Primitive for u8 {
    const SIZE: usize = 1;

    open spec fn width() -> nat {
        1
    }

    open spec fn decodes(bytes: Seq<u8>, value: Self) -> bool {
        value == bytes[0]
    }

    fn parse(buffer: &[u8]) -> (r: Result<(Self, &[u8]), FontParseError>) {
        if buffer.len() < 1 {
            Err(FontParseError::UnexpectedEof)
        } else {
            let value = read_u8(buffer);
            Ok((value, slice_subrange(buffer, 1, buffer.len())))
        }
    }
}

impl Primitive for i8 {
    const SIZE: usize = 1;

    open spec fn width() -> nat {
        1
    }

    open spec fn decodes(bytes: Seq<u8>, value: Self) -> bool {
        value as int == signed(bytes[0] as int, 0x100)
    }

    fn parse(buffer: &[u8]) -> (r: Result<(Self, &[u8]), FontParseError>) {
        if buffer.len() < 1 {
            Err(FontParseError::UnexpectedEof)
        } else {
            let value = read_i8(buffer);
            Ok((value, slice_subrange(buffer, 1, buffer.len())))
        }
    }
}

impl Primitive for u16 {
    const SIZE: usize = 2;

    open spec fn width() -> nat {
        2
    }

    open spec fn decodes(bytes: Seq<u8>, value: Self) -> bool {
        value as int == be16(bytes)
    }

    fn parse(buffer: &[u8]) -> (r: Result<(Self, &[u8]), FontParseError>) {
        if buffer.len() < 2 {
            Err(FontParseError::UnexpectedEof)
        } else {
            let value = be_read_u16(buffer);
            Ok((value, slice_subrange(buffer, 2, buffer.len())))
        }
    }
}

impl Primitive for i16 {
    const SIZE: usize = 2;

    open spec fn width() -> nat {
        2
    }

    open spec fn decodes(bytes: Seq<u8>, value: Self) -> bool {
        value as int == signed(be16(bytes), 0x1_0000)
    }

    fn parse(buffer: &[u8]) -> (r: Result<(Self, &[u8]), FontParseError>) {
        if buffer.len() < 2 {
            Err(FontParseError::UnexpectedEof)
        } else {
            let value = be_read_i16(buffer);
            Ok((value, slice_subrange(buffer, 2, buffer.len())))
        }
    }
}

impl Primitive for u32 {
    const SIZE: usize = 4;

    open spec fn width() -> nat {
        4
    }

    open spec fn decodes(bytes: Seq<u8>, value: Self) -> bool {
        value as int == be32(bytes)
    }

    fn parse(buffer: &[u8]) -> (r: Result<(Self, &[u8]), FontParseError>) {
        if buffer.len() < 4 {
            Err(FontParseError::UnexpectedEof)
        } else {
            let value = be_read_u32(buffer);
            Ok((value, slice_subrange(buffer, 4, buffer.len())))
        }
    }
}

impl Primitive for i32 {
    const SIZE: usize = 4;

    open spec fn width() -> nat {
        4
    }

    open spec fn decodes(bytes: Seq<u8>, value: Self) -> bool {
        value as int == signed(be32(bytes), 0x1_0000_0000)
    }

    fn parse(buffer: &[u8]) -> (r: Result<(Self, &[u8]), FontParseError>) {
        if buffer.len() < 4 {
            Err(FontParseError::UnexpectedEof)
        } else {
            let value = be_read_i32(buffer);
            Ok((value, slice_subrange(buffer, 4, buffer.len())))
        }
    }
}

/// An unsigned 24-bit integer.
#[derive(Debug, Clone, Copy, PartialEq, Eq, Structural)]
pub struct U24(pub u32);

impl From<u32> for U24 {
    fn from(f: u32) -> (r: U24) {
        U24(f)
    }
}

impl FromSpecImpl<u32> for U24 {
    open spec fn obeys_from_spec() -> bool {
        true
    }

    open spec fn from_spec(f: u32) -> U24 {
        U24(f)
    }
}

impl Primitive for U24 {
    const SIZE: usize = 3;

    open spec fn width() -> nat {
        3
    }

    open spec fn decodes(bytes: Seq<u8>, value: Self) -> bool {
        value.0 as int == be24(bytes)
    }

    fn parse(buffer: &[u8]) -> (r: Result<(Self, &[u8]), FontParseError>) {
        if buffer.len() < 3 {
            Err(FontParseError::UnexpectedEof)
        } else {
            let value = U24(be_read_u24(buffer));
            Ok((value, slice_subrange(buffer, 3, buffer.len())))
        }
    }
}

/// A signed 16.16 fixed-point number: the raw value counts 65536ths.
#[derive(Debug, Clone, Copy, PartialEq, Eq, Structural)]
pub struct Fixed(pub i32);

impl From<i32> for Fixed {
    fn from(f: i32) -> (r: Fixed) {
        Fixed(f)
    }
}

impl FromSpecImpl<i32> for Fixed {
    open spec fn obeys_from_spec() -> bool {
        true
    }

    open spec fn from_spec(f: i32) -> Fixed {
        Fixed(f)
    }
}

impl Primitive for Fixed {
    const SIZE: usize = 4;

    open spec fn width() -> nat {
        4
    }

    open spec fn decodes(bytes: Seq<u8>, value: Self) -> bool {
        value.0 as int == signed(be32(bytes), 0x1_0000_0000)
    }

    fn parse(buffer: &[u8]) -> (r: Result<(Self, &[u8]), FontParseError>) {
        if buffer.len() < 4 {
            Err(FontParseError::UnexpectedEof)
        } else {
            let value = Fixed(be_read_i32(buffer));
            Ok((value, slice_subrange(buffer, 4, buffer.len())))
        }
    }
}

/// A signed quantity in font design units.
#[derive(Debug, Clone, Copy, PartialEq, Eq, Structural)]
pub struct FWord(pub i16);

impl From<i16> for FWord {
    fn from(f: i16) -> (r: FWord) {
        FWord(f)
    }
}

impl FromSpecImpl<i16> for FWord {
    open spec fn obeys_from_spec() -> bool {
        true
    }

    open spec fn from_spec(f: i16) -> FWord {
        FWord(f)
    }
}

impl Primitive for FWord {
    const SIZE: usize = 2;

    open spec fn width() -> nat {
        2
    }

    open spec fn decodes(bytes: Seq<u8>, value: Self) -> bool {
        value.0 as int == signed(be16(bytes), 0x1_0000)
    }

    fn parse(buffer: &[u8]) -> (r: Result<(Self, &[u8]), FontParseError>) {
        if buffer.len() < 2 {
            Err(FontParseError::UnexpectedEof)
        } else {
            let value = FWord(be_read_i16(buffer));
            Ok((value, slice_subrange(buffer, 2, buffer.len())))
        }
    }
}

/// An unsigned quantity in font design units.
#[derive(Debug, Clone, Copy, PartialEq, Eq, Structural)]
pub struct UFWord(pub u16);

impl From<u16> for UFWord {
    fn from(f: u16) -> (r: UFWord) {
        UFWord(f)
    }
}

impl FromSpecImpl<u16> for UFWord {
    open spec fn obeys_from_spec() -> bool {
        true
    }

    open spec fn from_spec(f: u16) -> UFWord {
        UFWord(f)
    }
}

impl Primitive for UFWord {
    const SIZE: usize = 2;

    open spec fn width() -> nat {
        2
    }

    open spec fn decodes(bytes: Seq<u8>, value: Self) -> bool {
        value.0 as int == be16(bytes)
    }

    fn parse(buffer: &[u8]) -> (r: Result<(Self, &[u8]), FontParseError>) {
        if buffer.len() < 2 {
            Err(FontParseError::UnexpectedEof)
        } else {
            let value = UFWord(be_read_u16(buffer));
            Ok((value, slice_subrange(buffer, 2, buffer.len())))
        }
    }
}

/// A signed 2.14 fixed-point number: the raw value counts 16384ths.
#[derive(Debug, Clone, Copy, PartialEq, Eq, Structural)]
pub struct F2Dot14(pub i16);

impl From<i16> for F2Dot14 {
    fn from(f: i16) -> (r: F2Dot14) {
        F2Dot14(f)
    }
}

impl FromSpecImpl<i16> for F2Dot14 {
    open spec fn obeys_from_spec() -> bool {
        true
    }

    open spec fn from_spec(f: i16) -> F2Dot14 {
        F2Dot14(f)
    }
}

impl Primitive for F2Dot14 {
    const SIZE: usize = 2;

    open spec fn width() -> nat {
        2
    }

    open spec fn decodes(bytes: Seq<u8>, value: Self) -> bool {
        value.0 as int == signed(be16(bytes), 0x1_0000)
    }

    fn parse(buffer: &[u8]) -> (r: Result<(Self, &[u8]), FontParseError>) {
        if buffer.len() < 2 {
            Err(FontParseError::UnexpectedEof)
        } else {
            let value = F2Dot14(be_read_i16(buffer));
            Ok((value, slice_subrange(buffer, 2, buffer.len())))
        }
    }
}

/// A date, in seconds since midnight of 1 January 1904.
#[derive(Debug, Clone, Copy, PartialEq, Eq, Structural)]
pub struct LongDateTime(pub u64);

impl From<u64> for LongDateTime {
    fn from(f: u64) -> (r: LongDateTime) {
        LongDateTime(f)
    }
}

impl FromSpecImpl<u64> for LongDateTime {
    open spec fn obeys_from_spec() -> bool {
        true
    }

    open spec fn from_spec(f: u64) -> LongDateTime {
        LongDateTime(f)
    }
}

impl Primitive for LongDateTime {
    const SIZE: usize = 8;

    open spec fn width() -> nat {
        8
    }

    open spec fn decodes(bytes: Seq<u8>, value: Self) -> bool {
        value.0 as int == be64(bytes)
    }

    fn parse(buffer: &[u8]) -> (r: Result<(Self, &[u8]), FontParseError>) {
        if buffer.len() < 8 {
            Err(FontParseError::UnexpectedEof)
        } else {
            let value = LongDateTime(be_read_u64(buffer));
            Ok((value, slice_subrange(buffer, 8, buffer.len())))
        }
    }
}

/// A short offset to a table; zero stands for none.
#[derive(Debug, Clone, Copy, PartialEq, Eq, Structural)]
pub struct Offset16(pub u16);

impl From<u16> for Offset16 {
    fn from(f: u16) -> (r: Offset16) {
        Offset16(f)
    }
}

impl FromSpecImpl<u16> for Offset16 {
    open spec fn obeys_from_spec() -> bool {
        true
    }

    open spec fn from_spec(f: u16) -> Offset16 {
        Offset16(f)
    }
}

impl Primitive for Offset16 {
    const SIZE: usize = 2;

    open spec fn width() -> nat {
        2
    }

    open spec fn decodes(bytes: Seq<u8>, value: Self) -> bool {
        value.0 as int == be16(bytes)
    }

    fn parse(buffer: &[u8]) -> (r: Result<(Self, &[u8]), FontParseError>) {
        if buffer.len() < 2 {
            Err(FontParseError::UnexpectedEof)
        } else {
            let value = Offset16(be_read_u16(buffer));
            Ok((value, slice_subrange(buffer, 2, buffer.len())))
        }
    }
}

/// A long offset to a table; zero stands for none.
#[derive(Debug, Clone, Copy, PartialEq, Eq, Structural)]
pub struct Offset32(pub u32);

impl From<u32> for Offset32 {
    fn from(f: u32) -> (r: Offset32) {
        Offset32(f)
    }
}

impl FromSpecImpl<u32> for Offset32 {
    open spec fn obeys_from_spec() -> bool {
        true
    }

    open spec fn from_spec(f: u32) -> Offset32 {
        Offset32(f)
    }
}

impl Primitive for Offset32 {
    const SIZE: usize = 4;

    open spec fn width() -> nat {
        4
    }

    open spec fn decodes(bytes: Seq<u8>, value: Self) -> bool {
        value.0 as int == be32(bytes)
    }

    fn parse(buffer: &[u8]) -> (r: Result<(Self, &[u8]), FontParseError>) {
        if buffer.len() < 4 {
            Err(FontParseError::UnexpectedEof)
        } else {
            let value = Offset32(be_read_u32(buffer));
            Ok((value, slice_subrange(buffer, 4, buffer.len())))
        }
    }
}

impl Offset16 {
    /// The offset as an index. Whether it lies inside a buffer is for the
    /// caller to test.
    pub fn as_usize(self) -> (n: usize)
        ensures
            n == self.0,
    {
        self.0 as usize
    }
}

impl Offset32 {
    /// The offset as an index. Whether it lies inside a buffer is for the
    /// caller to test.
    pub fn as_usize(self) -> (n: usize)
        ensures
            n == self.0,
    {
        self.0 as usize
    }
}

/// A four-byte identifier, such as the name of a table.
#[derive(Debug, Clone, Copy, PartialEq, Eq)]
pub struct Tag(pub [u8; 4]);

impl Tag {
    /// The four bytes read as one big-endian number.
    pub fn as_u32(&self) -> (v: u32)
        ensures
            v as int == be32(self.0@),
    {
        let a: u32 = self.0[0] as u32;
        let b: u32 = self.0[1] as u32;
        let c: u32 = self.0[2] as u32;
        let d: u32 = self.0[3] as u32;
        a * 0x100_0000 + b * 0x1_0000 + c * 0x100 + d
    }

    /// Whether the two tags hold the same four bytes.
    pub fn same(&self, other: &Tag) -> (b: bool)
        ensures
            b == (self.0@ == other.0@),
    {
        let b = self.0[0] == other.0[0] && self.0[1] == other.0[1] && self.0[2] == other.0[2]
            && self.0[3] == other.0[3];
        proof {
            if b {
                assert(self.0@ =~= other.0@);
            }
        }
        b
    }

    /// Whether every byte is a printable ASCII character, so that the tag can
    /// be shown as text.
    pub fn is_printable(&self) -> (b: bool)
        ensures
            b == (forall|i: int| 0 <= i < 4 ==> 32 <= #[trigger] self.0@[i] <= 126),
    {
        let b = printable(self.0[0]) && printable(self.0[1]) && printable(self.0[2])
            && printable(self.0[3]);
        b
    }
}

/// The characters that show one printable byte inside double quotes: the
/// byte itself, after a backslash where it is a double quote or a backslash.
pub open spec fn quoted_char(c: u8) -> Seq<char> {
    if c == 34 || c == 92 {
        seq!['\\', c as char]
    } else {
        seq![c as char]
    }
}

/// The text that shows a tag of four printable bytes: the word `Tag` and, in
/// round brackets, the four characters in double quotes.
pub open spec fn name_text(bytes: Seq<u8>) -> Seq<char> {
    seq!['T', 'a', 'g', '(', '"'] + quoted_char(bytes[0]) + quoted_char(bytes[1]) + quoted_char(
        bytes[2],
    ) + quoted_char(bytes[3]) + seq!['"', ')']
}

/// The upper-case hexadecimal digit of a number below sixteen.
pub open spec fn hex_digit(d: int) -> char {
    if d < 10 {
        (48 + d) as char
    } else {
        (55 + d) as char
    }
}

/// The text that shows a tag by its number: the word `Tag` and, in round
/// brackets, `0x` and the eight hexadecimal digits of the number.
pub open spec fn number_text(v: int) -> Seq<char> {
    seq![
        'T',
        'a',
        'g',
        '(',
        '0',
        'x',
        hex_digit(v / 0x1000_0000 % 16),
        hex_digit(v / 0x100_0000 % 16),
        hex_digit(v / 0x10_0000 % 16),
        hex_digit(v / 0x1_0000 % 16),
        hex_digit(v / 0x1000 % 16),
        hex_digit(v / 0x100 % 16),
        hex_digit(v / 0x10 % 16),
        hex_digit(v % 16),
        ')',
    ]
}

/// `format!` with the `{:?}` form of the string that `std::str::from_utf8`
/// makes of the four bytes: for printable ASCII the debug form of a string is
/// its characters in double quotes, with a backslash before each double quote
/// and backslash. `from_utf8` accepts every sequence of ASCII bytes.
#[verifier::external_body]
fn show_name(bytes: &[u8; 4]) -> (text: String)
    requires
        forall|i: int| 0 <= i < 4 ==> 32 <= #[trigger] bytes@[i] <= 126,
    ensures
        text@ == name_text(bytes@),
{
    format!("Tag({:?})", std::str::from_utf8(&bytes[..]).unwrap())
}

/// `format!` with the `{:08X}` form of a number: its hexadecimal digits in
/// upper case, filled with zeros to eight places.
#[verifier::external_body]
fn show_number(v: u32) -> (text: String)
    ensures
        text@ == number_text(v as int),
{
    format!("Tag(0x{:08X})", v)
}

impl Tag {
    /// The text that shows the tag: its four characters where all are
    /// printable ASCII, else its number in hexadecimal.
    pub fn debug_string(&self) -> (text: String)
        ensures
            text@ == if forall|i: int| 0 <= i < 4 ==> 32 <= #[trigger] self.0@[i] <= 126 {
                name_text(self.0@)
            } else {
                number_text(be32(self.0@))
            },
    {
        if self.is_printable() {
            show_name(&self.0)
        } else {
            show_number(self.as_u32())
        }
    }
}

/// Whether the byte is a printable ASCII character.
pub fn printable(c: u8) -> (b: bool)
    ensures
        b == (32 <= c <= 126),
{
    c >= 32 && c <= 126
}

impl Primitive for Tag {
    const SIZE: usize = 4;

    open spec fn width() -> nat {
        4
    }

    open spec fn decodes(bytes: Seq<u8>, value: Self) -> bool {
        value.0@ == bytes.subrange(0, 4)
    }

    fn parse(buffer: &[u8]) -> (r: Result<(Self, &[u8]), FontParseError>) {
        if buffer.len() < 4 {
            Err(FontParseError::UnexpectedEof)
        } else {
            let tag = Tag([buffer[0], buffer[1], buffer[2], buffer[3]]);
            proof {
                assert(tag.0@ =~= buffer@.subrange(0, 4));
            }
            Ok((tag, slice_subrange(buffer, 4, buffer.len())))
        }
    }
}

/// The unsigned 16-bit number at `pos` in `s`.
pub open spec fn u16_at(s: Seq<u8>, pos: int) -> int {
    be16(s.subrange(pos, pos + 2))
}

/// The unsigned 24-bit number at `pos` in `s`.
pub open spec fn u24_at(s: Seq<u8>, pos: int) -> int {
    be24(s.subrange(pos, pos + 3))
}

/// The unsigned 32-bit number at `pos` in `s`.
pub open spec fn u32_at(s: Seq<u8>, pos: int) -> int {
    be32(s.subrange(pos, pos + 4))
}

/// The 32-bit number at the front of `t` is the one at `pos` in `s` where
/// the four bytes agree.
pub proof fn lemma_u32_at(s: Seq<u8>, t: Seq<u8>, pos: int)
    requires
        0 <= pos,
        pos + 4 <= s.len(),
        t.len() >= 4,
        forall|k: int| 0 <= k < 4 ==> t[k] == s[pos + k],
    ensures
        be32(t) == u32_at(s, pos),
{
    assert(t[0] == s.subrange(pos, pos + 4)[0]);
    assert(t[1] == s.subrange(pos, pos + 4)[1]);
    assert(t[2] == s.subrange(pos, pos + 4)[2]);
    assert(t[3] == s.subrange(pos, pos + 4)[3]);
}

/// Reads the unsigned 16-bit number at `pos`.
pub fn get_u16(data: &[u8], pos: usize) -> (v: u16)
    requires
        pos + 2 <= data@.len(),
    ensures
        v as int == u16_at(data@, pos as int),
{
    let len: usize = data.len();
    assert(pos + 2 <= len);
    be_read_u16(slice_subrange(data, pos, pos + 2))
}

/// Reads the unsigned 24-bit number at `pos`.
pub fn get_u24(data: &[u8], pos: usize) -> (v: u32)
    requires
        pos + 3 <= data@.len(),
    ensures
        v as int == u24_at(data@, pos as int),
        v <= 0xFF_FFFF,
{
    let len: usize = data.len();
    assert(pos + 3 <= len);
    be_read_u24(slice_subrange(data, pos, pos + 3))
}

/// Reads the unsigned 32-bit number at `pos`.
pub fn get_u32(data: &[u8], pos: usize) -> (v: u32)
    requires
        pos + 4 <= data@.len(),
    ensures
        v as int == u32_at(data@, pos as int),
{
    let len: usize = data.len();
    assert(pos + 4 <= len);
    be_read_u32(slice_subrange(data, pos, pos + 4))
}

/// The tag `ttcf`.
pub const TAG_TTC: [u8; 4] = [116, 116, 99, 102];

/// The tag `cmap`.
pub const TAG_CMAP: [u8; 4] = [99, 109, 97, 112];

/// The tag `head`.
pub const TAG_HEAD: [u8; 4] = [104, 101, 97, 100];

/// The tag `hhea`.
pub const TAG_HHEA: [u8; 4] = [104, 104, 101, 97];

/// The tag `hmtx`.
pub const TAG_HMTX: [u8; 4] = [104, 109, 116, 120];

/// The tag `maxp`.
pub const TAG_MAXP: [u8; 4] = [109, 97, 120, 112];

/// The tag `name`.
pub const TAG_NAME: [u8; 4] = [110, 97, 109, 101];

/// The tag `OS/2`.
pub const TAG_OS2: [u8; 4] = [79, 83, 47, 50];

/// The tag `post`.
pub const TAG_POST: [u8; 4] = [112, 111, 115, 116];

/// The tag `cvt `.
pub const TAG_CVT: [u8; 4] = [99, 118, 116, 32];

/// The tag `fpgm`.
pub const TAG_FPGM: [u8; 4] = [102, 112, 103, 109];

/// The tag `glyf`.
pub const TAG_GLYF: [u8; 4] = [103, 108, 121, 102];

/// The tag `loca`.
pub const TAG_LOCA: [u8; 4] = [108, 111, 99, 97];

/// The tag `prep`.
pub const TAG_PREP: [u8; 4] = [112, 114, 101, 112];

/// The tag `gasp`.
pub const TAG_GASP: [u8; 4] = [103, 97, 115, 112];

/// The tag `CFF `.
pub const TAG_CFF: [u8; 4] = [67, 70, 70, 32];

/// The tag `CFF2`.
pub const TAG_CFF2: [u8; 4] = [67, 70, 70, 50];

/// The tag `VORG`.
pub const TAG_VORG: [u8; 4] = [86, 79, 82, 71];

/// The tag `SVG `.
pub const TAG_SVG: [u8; 4] = [83, 86, 71, 32];

/// The tag `EBDT`.
pub const TAG_EBDT: [u8; 4] = [69, 66, 68, 84];

/// The tag `EBLC`.
pub const TAG_EBLC: [u8; 4] = [69, 66, 76, 67];

/// The tag `EBSC`.
pub const TAG_EBSC: [u8; 4] = [69, 66, 83, 67];

/// The tag `cbdt`.
pub const TAG_CBDT: [u8; 4] = [99, 98, 100, 116];

/// The tag `cblc`.
pub const TAG_CBLC: [u8; 4] = [99, 98, 108, 99];

/// The tag `sbix`.
pub const TAG_SBIX: [u8; 4] = [115, 98, 105, 120];

/// The tag `BASE`.
pub const TAG_BASE: [u8; 4] = [66, 65, 83, 69];

/// The tag `GDEF`.
pub const TAG_GDEF: [u8; 4] = [71, 68, 69, 70];

/// The tag `GPOS`.
pub const TAG_GPOS: [u8; 4] = [71, 80, 79, 83];

/// The tag `GSUB`.
pub const TAG_GSUB: [u8; 4] = [71, 83, 85, 66];

/// The tag `JSTF`.
pub const TAG_JSTF: [u8; 4] = [74, 83, 84, 70];

/// The tag `MATH`.
pub const TAG_MATH: [u8; 4] = [77, 65, 84, 72];

/// The tag `avar`.
pub const TAG_AVAR: [u8; 4] = [97, 118, 97, 114];

/// The tag `cvar`.
pub const TAG_CVAR: [u8; 4] = [99, 118, 97, 114];

/// The tag `fvar`.
pub const TAG_FVAR: [u8; 4] = [102, 118, 97, 114];

/// The tag `gvar`.
pub const TAG_GVAR: [u8; 4] = [103, 118, 97, 114];

/// The tag `HVAR`.
pub const TAG_HVAR: [u8; 4] = [72, 86, 65, 82];

/// The tag `MVAR`.
pub const TAG_MVAR: [u8; 4] = [77, 86, 65, 82];

/// The tag `STAT`.
pub const TAG_STAT: [u8; 4] = [83, 84, 65, 84];

/// The tag `VVAR`.
pub const TAG_VVAR: [u8; 4] = [86, 86, 65, 82];

/// The tag `COLR`.
pub const TAG_COLR: [u8; 4] = [67, 79, 76, 82];

/// The tag `CPAL`.
pub const TAG_CPAL: [u8; 4] = [67, 80, 65, 76];

/// The tag `DSIG`.
pub const TAG_DSIG: [u8; 4] = [68, 83, 73, 71];

/// The tag `hdmx`.
pub const TAG_HDMX: [u8; 4] = [104, 100, 109, 120];

/// The tag `kern`.
pub const TAG_KERN: [u8; 4] = [107, 101, 114, 110];

/// The tag `LTSH`.
pub const TAG_LTSH: [u8; 4] = [76, 84, 83, 72];

/// The tag `MERG`.
pub const TAG_MERG: [u8; 4] = [77, 69, 82, 71];

/// The tag `meta`.
pub const TAG_META: [u8; 4] = [109, 101, 116, 97];

/// The tag `PCLT`.
pub const TAG_PCLT: [u8; 4] = [80, 67, 76, 84];

/// The tag `VDMX`.
pub const TAG_VDMX: [u8; 4] = [86, 68, 77, 88];

/// The tag `vhea`.
pub const TAG_VHEA: [u8; 4] = [118, 104, 101, 97];

/// The tag `vmtx`.
pub const TAG_VMTX: [u8; 4] = [118, 109, 116, 120];

} // verus!
