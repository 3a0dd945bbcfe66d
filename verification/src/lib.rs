//! A monochrome (one bit per pixel) framebuffer that stores pixels packed
//! eight to a byte, for byte-oriented displays such as e-paper panels and
//! OLED controllers.
//!
//! The core is the packed-pixel addressing arithmetic: mapping a logical
//! `(x, y)` coordinate to a byte index and bit mask under a chosen packing
//! orientation, a rectangular `update` that writes a dense pixel block with
//! silent clipping at the buffer edges, and a rectangular extraction
//! (`part_vec`) that reads a sub-region back out, widened to whole-byte
//! boundaries along the packed axis.

use vstd::prelude::*;

pub mod byte_per_eight_pixels;
pub mod common;
pub mod eight_data;
pub mod eight_px_uint_eight;
pub mod error;
pub mod horizontal_eight_px_uint_eight;
pub mod unix;
pub mod vertical_eight_px_uint_eight;

pub use crate::common::{
    compute_eight_length, into_as_eight, ActAsMono, ActAsXywh, AsEight, Mono, Rectangle,
};
pub use crate::eight_data::EightData;
pub use crate::eight_px_uint_eight::EightPxUintEight;
pub use crate::error::EightPxUintEightError;
pub use crate::horizontal_eight_px_uint_eight::{
    Horizontal, HorizontalEightPxUintEight, Part, Vertical,
};
pub use crate::unix::EightDataClient;
pub use crate::vertical_eight_px_uint_eight::VerticalEightPxUintEight;

verus! {

pub type EightPxUintEightResult<T> = Result<T, EightPxUintEightError>;

} // verus!
