//! Converts a sequence of equally sized RGBA frames into one animated,
//! palette-indexed image: a shared colour table of at most 256 entries,
//! one array of palette indices per frame, and an optional transparent index.

pub mod color;
pub mod image;
pub mod table;
pub mod tally;
pub mod order;
pub mod naive;
pub mod neuquant;
pub mod error;
pub mod animation;
pub mod convert;
pub mod modifiers;
pub mod range;
pub mod paths;
pub mod options;
pub mod parse_args;

pub use crate::animation::Gif;
pub use crate::color::Color;
pub use crate::convert::{engiffen, Quantizer};
pub use crate::error::Error;
pub use crate::image::Image;
