//! Mosaic synthesis engine.
//!
//! Turns a palette-quantized image into a mosaic: every contiguous
//! same-colored region is replaced by tiled pixels drawn from a library of
//! small reference photographs whose anchor color is closest to the region's
//! color.  The engine is a resumable state machine: it runs synchronously
//! except when a sample tile it needs is not yet resident, at which point it
//! suspends and asks its caller to acquire the tile.

pub mod error;
pub mod fill;
pub mod matcher;
pub mod grid;
pub mod hexcode;
pub mod library;
pub mod pixel;
pub mod stack;
pub mod synth;
