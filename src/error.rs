//! The failures that construction and dequantization report.
use vstd::prelude::*;
use crate::dispatch::Backend;

verus! {

/// Why a quantized tensor could not be built or read.
#[derive(Clone, Copy, Debug, PartialEq, Eq, Structural)]
pub enum QuantError {
    /// The element count is not a multiple of the format's block size.
    Alignment { elem_count: usize, block_size: usize },
    /// A buffer's length differs from the one the shape and format call for.
    SizeMismatch { expected: u128, actual: usize },
    /// The requested backend is not among the available capabilities.
    BackendUnavailable { backend: Backend },
    /// A block would reach past the end of the buffer.
    StructuralRead { needed: usize, available: usize },
}

} // verus!
