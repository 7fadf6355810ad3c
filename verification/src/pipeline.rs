//! Pipeline stages and raster layer data.
use vstd::prelude::*;

verus! {

/// Pipeline stage for processing
#[derive(Debug, Clone, Copy)]
pub enum PipelineStage {
    /// Text shaping stage
    Shaping,
    /// Drawing command processing
    Drawing,
    /// Effect application
    Effects,
    /// Layer compositing
    Compositing,
}

/// Raster layer data
pub struct RasterData {
    /// Pixel data (RGBA)
    pub pixels: Vec<u8>,
    /// Layer X position
    pub x: u32,
    /// Layer Y position
    pub y: u32,
    /// Layer width
    pub width: u32,
    /// Layer height
    pub height: u32,
    /// Opacity (0-255)
    pub opacity: u8,
}

} // verus!
