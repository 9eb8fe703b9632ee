//! Frames produced by rendering an environment.

use vstd::prelude::*;

verus! {

/// A rendered frame: text, or a row-major pixel buffer.
#[derive(Clone, Debug, PartialEq)]
pub enum RenderFrame {
    /// A textual picture of the state.
    Text(String),
    /// Raw pixels, row-major; three bytes per pixel (RGB) or four (RGBA).
    Pixels { width: u32, height: u32, data: Vec<u8> },
}

} // verus!
