//! Bounding boxes and element statistics gathered while decoding
//! OpenStreetMap PBF files with several decoder crates.
//!
//! - `stats`: running statistics (min, max, wrapping total and count) of
//!   the element counts of decoded files.
//! - `bbox`: a latitude/longitude bounding box and how it is widened.
//! - `elements`: the box and element count of decoded blocks, and the laws
//!   that make the result independent of how blocks are grouped.
//! - `impl_osmpbf`, `impl_osmpbfreader`, `impl_osm_pbf_reader_pb4`: what one
//!   decoded block or object of each decoder crate adds to the box and the
//!   count.
//! - `text`: decimal writing of integers, for `BBox::to_string`.

pub mod bbox;
pub mod elements;
pub mod impl_osm_pbf_reader_pb4;
pub mod impl_osmpbf;
pub mod impl_osmpbfreader;
pub mod stats;
pub mod text;
