mod bands;
mod geometry;
mod numeral;
mod parse;
mod render;

pub use bands::Band;
pub use bands::band_contains;
pub use bands::band_contains_byte;
pub use bands::lemma_band_bytes;
pub use bands::band_layout;
pub use bands::is_row_partition;
pub use bands::lemma_row_partition_bounded;
pub use bands::lemma_row_partition_complete;
pub use geometry::Complex;
pub use geometry::ImageBounds;
pub use numeral::all_digits;
pub use numeral::digit_value;
pub use numeral::digits_value;
pub use numeral::is_digit;
pub use numeral::is_numeral;
pub use numeral::numeral_digits;
pub use numeral::parse_dimensions;
pub use numeral::parse_usize;
pub use parse::contains_char;
pub use parse::parse_complex;
pub use parse::parse_pair;
pub use parse::spec_split_at;
pub use parse::split_at_separator;
pub use render::pixel_index;
pub use render::shade;
pub use render::spec_shade;
