use vstd::prelude::*;

verus! {

/// The maximum profile table, which states the memory that a font needs.
#[derive(Debug, Clone, Copy)]
pub struct Maxp {
    /// The number of glyphs, for fonts with TrueType and with CFF outlines.
    pub num_glyphs: u16,
    /// What a font with TrueType outlines states besides.
    pub profile: Option<Profile>,
}

/// The limits that a font with TrueType outlines states.
#[derive(Debug, Clone, Copy, PartialEq, Eq, Structural)]
pub struct Profile {
    pub max_points: u16,
    pub max_contours: u16,
    pub max_composite_points: u16,
    pub max_composite_contours: u16,
    pub max_zone: u16,
    pub max_twilight_points: u16,
    pub max_storage: u16,
    pub max_function_defs: u16,
    pub max_instruction_defs: u16,
    pub max_stack_elements: u16,
    pub max_size_of_instructions: u16,
    pub max_component_elements: u16,
    pub max_component_depth: u16,
}

} // verus!
