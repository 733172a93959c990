//! Panel refresh modes.

use vstd::prelude::*;

verus! {

/// How the panel redraws a region.
#[derive(Clone, Copy, Debug, PartialEq, Eq, Structural)]
pub enum RefreshMode {
    /// Complete waveform.
    Full,
    /// Balanced quality and speed.
    Half,
    /// Fast waveform.
    Fast,
}

/// How the panel shows the grayscale planes.
#[derive(Clone, Copy, Debug, PartialEq, Eq, Structural)]
pub enum GrayscaleMode {
    Standard,
    Fast,
}

} // verus!
