//! Pixel records for plain-text raster images.
//!
//! A pixel of such an image is written as three decimal numbers, one for each
//! of the red, green and blue channels, separated by single spaces. This crate
//! holds the producer of that record for channels that are already quantized
//! to bytes, together with the proof that the record can be read back in one
//! way only.

pub mod color;
