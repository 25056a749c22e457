//! Tone, colour and texture transforms of a photo editor, computed exactly.
//!
//! Every transform takes a decoded [`bitmap::Bitmap`] and its settings and
//! returns a new bitmap. Each output sample is the byte nearest to a quotient
//! of whole numbers that is evaluated without rounding, so that the contract
//! of a transform is a formula over the integers and nothing is left to the
//! precision of an intermediate result.
pub mod bigint;
pub mod bitmap;
pub mod channel;
pub mod color;
pub mod color_grade;
pub mod curve;
pub mod grain;
pub mod resize;
pub mod rise;
pub mod rounding;
pub mod show_curve;
pub mod smoothblend;
pub mod structure;
pub mod vignette;
