use vstd::prelude::*;

verus! {

/// Axis-aligned rectangle in the pixel space of a page image.
#[derive(Clone, Copy, Debug, PartialEq, Eq, Structural)]
pub struct BoundingBox {
    pub x: u32,
    pub y: u32,
    pub width: u32,
    pub height: u32,
}

/// What a recognised fragment holds.
#[derive(Clone, Copy, Debug, PartialEq, Eq, Structural)]
pub enum BlockType {
    Text,
    Formula,
    Table,
    Unknown,
}

/// The bit pattern of the `f32` confidence 1.0, given to blocks of backends
/// that report no confidence of their own.
pub const FULL_CONFIDENCE_BITS: u32 = 0x3F80_0000;

/// A recognised text fragment. The confidence in [0, 1] is kept as the bit
/// pattern of an `f32` (`f32::to_bits`), which this library only carries along.
#[derive(Clone, Debug)]
pub struct OcrBlock {
    pub text: String,
    pub confidence_bits: u32,
    pub bbox: Option<BoundingBox>,
    pub block_type: BlockType,
    pub language: Option<String>,
}

/// The recognised blocks of one page and the language detected on it, if any.
#[derive(Clone, Debug)]
pub struct OcrPage {
    pub blocks: Vec<OcrBlock>,
    pub detected_language: Option<String>,
}

} // verus!
