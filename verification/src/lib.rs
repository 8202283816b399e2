//! A decoder for OpenType and TrueType font files held in memory: typed
//! big-endian field extraction, the table directory, and the character map.

pub mod decode;
pub mod error;
pub mod primitive;
pub mod font;
pub mod tables;
pub mod search;
pub mod cmap;
