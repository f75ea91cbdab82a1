//! A verified converter for a nested-block scene-description format.
//!
//! The input text holds up to two named top-level blocks, `drawLines`
//! and `drawQuads`, each a brace-delimited body containing shape
//! records (`line{...}` and `quad{...}`). [`extract_block`] locates a
//! block and returns its balanced-brace body; [`parse_records`] scans
//! for records, validates their coordinate text and assembles an
//! indexed [`ShapeCollection`]; [`convert`] runs the whole pipeline on
//! one input text. Every function's behaviour is pinned down by
//! specifications over character sequences and proved.

pub mod extract;
pub mod numbers;
pub mod parse;
pub mod records;
pub mod shapes;
pub mod text;

pub use extract::extract_block;
pub use parse::convert;
pub use parse::parse_records;
pub use shapes::ParseError;
pub use shapes::Point;
pub use shapes::Shape;
pub use shapes::ShapeCollection;
