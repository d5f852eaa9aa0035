//! The integer core of a procedural shader for celestial bodies.
//!
//! The shader composes noise, colour ramps and lighting terms in floating
//! point; that arithmetic lives with the program that draws the picture. This
//! library holds what the engine settles in integers, and proves it: the tag
//! that selects the shading algorithm of a body, and the lenient reading of
//! the palette strings that configure every colour.

pub mod body;
pub mod hex;

pub use body::Body;
pub use hex::{hex_rgb_u8, Rgb8};
