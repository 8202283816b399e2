use vstd::prelude::*;
use crate::primitive::{Fixed, LongDateTime};

verus! {

/// The font header table: revision, flags, the dates of creation and
/// modification, and the bounding box of all glyphs.
#[derive(Debug, Clone, Copy)]
pub struct Head {
    pub font_revision: Fixed,
    pub check_sum_adjustment: u32,
    pub flags: u16,
    pub units_per_em: u16,
    pub created: LongDateTime,
    pub modified: LongDateTime,
    pub x_min: i16,
    pub y_min: i16,
    pub x_max: i16,
    pub y_max: i16,
    pub mac_style: u16,
    pub lowest_rec_ppem: u16,
    pub font_direction_hint: i16,
    pub index_to_loc_format: i16,
    pub glyph_data_format: i16,
}

} // verus!
