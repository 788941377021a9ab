//! Navigation-and-cache engine for a directory-based image browser.
//!
//! The engine decides which image is current, keeps the ordered listing of
//! sibling images of the active directory, and bounds the set of decoded
//! images it retains to the neighbours of the current position. All file
//! system access and pixel decoding is performed by the host, which drives
//! the engine through a small tick protocol and hands the outcomes back in
//! as plain values.

use vstd::prelude::*;

pub mod cache;
pub mod listing;
pub mod manager;
pub mod paths;

verus! {

/// A decoded image: pixel dimensions plus the raw pixel bytes.
pub struct PixelBuffer {
    pub width: u32,
    pub height: u32,
    pub data: Vec<u8>,
}

} // verus!
