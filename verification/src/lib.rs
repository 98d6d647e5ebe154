//! Binary formats of a game client's design-data archive: the archive index
//! that maps a 32-bit hash to a slot inside a data file, the sparse row codec
//! of the allowed-language table stored in such a slot, and the in-place
//! write-back that never grows a slot.

pub mod allowed_language;
pub mod args;
pub mod design_data;
pub mod design_index;
pub mod error;
pub mod hexstr;
pub mod language_patch;
pub mod patch;
pub mod truncation;
pub mod varint;
pub mod wire;
