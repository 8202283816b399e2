use vstd::prelude::*;

verus! {

/// The horizontal metrics table, as the bytes that hold it.
pub struct Hmtx<'buf> {
    pub buffer: &'buf [u8],
}

/// The advance width and left side bearing of one glyph.
#[derive(Debug, Clone, Copy, PartialEq, Eq, Structural)]
pub struct HmtxRecord {
    pub advance_width: u16,
    pub left_side_bearing: u16,
}

} // verus!
