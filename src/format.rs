//! The closed set of storage formats and the fixed metadata of each.
use vstd::prelude::*;

verus! {

/// A storage layout for tensor elements.
///
/// `F32` and `F16` store each element's floating-point bits as they are.
/// The `Q` formats group 32 elements into a block that starts with
/// half-precision header fields (a scale, and for `Q4_1` a minimum too),
/// followed by one small integer level per element.
#[allow(non_camel_case_types)]
#[derive(Clone, Copy, Debug, PartialEq, Eq, Structural)]
pub enum GgmlDType {
    F32,
    F16,
    Q4_0,
    Q4_1,
    Q8_0,
}

/// Number of elements encoded together in one block.
pub open spec fn block_size_of(f: GgmlDType) -> nat {
    match f {
        GgmlDType::F32 | GgmlDType::F16 => 1,
        _ => 32,
    }
}

/// Bits of one element's level before packing.
pub open spec fn element_bits_of(f: GgmlDType) -> nat {
    match f {
        GgmlDType::F32 => 32,
        GgmlDType::F16 => 16,
        GgmlDType::Q4_0 | GgmlDType::Q4_1 => 4,
        GgmlDType::Q8_0 => 8,
    }
}

/// Number of two-byte header fields at the start of each block.
pub open spec fn header_fields_of(f: GgmlDType) -> nat {
    match f {
        GgmlDType::F32 | GgmlDType::F16 => 0,
        GgmlDType::Q4_0 | GgmlDType::Q8_0 => 1,
        GgmlDType::Q4_1 => 2,
    }
}

/// Encoded length of one block.
pub open spec fn bytes_per_block_of(f: GgmlDType) -> nat {
    match f {
        GgmlDType::F32 => 4,
        GgmlDType::F16 => 2,
        GgmlDType::Q4_0 => 18,
        GgmlDType::Q4_1 => 20,
        GgmlDType::Q8_0 => 34,
    }
}

/// A block's length is its header fields followed by its packed levels, with
/// nothing else between or after them.
pub proof fn lemma_block_layout(f: GgmlDType)
    ensures
        bytes_per_block_of(f) == 2 * header_fields_of(f) + block_size_of(f) * element_bits_of(f) / 8,
        (block_size_of(f) * element_bits_of(f)) % 8 == 0,
{
    assert(32 * 4 / 8 == 16 && (32 * 4) % 8 == 0) by (nonlinear_arith);
    assert(32 * 8 / 8 == 32 && (32 * 8) % 8 == 0) by (nonlinear_arith);
    assert(1 * 32 / 8 == 4 && (1 * 32) % 8 == 0) by (nonlinear_arith);
    assert(1 * 16 / 8 == 2 && (1 * 16) % 8 == 0) by (nonlinear_arith);
}

/// Exclusive upper bound of one element's level.
pub open spec fn level_bound(f: GgmlDType) -> int {
    match f {
        GgmlDType::F32 => 0x1_0000_0000,
        GgmlDType::F16 => 0x1_0000,
        GgmlDType::Q4_0 | GgmlDType::Q4_1 => 16,
        GgmlDType::Q8_0 => 256,
    }
}

/// The static metadata of a format.
#[derive(Clone, Copy, Debug, PartialEq, Eq, Structural)]
pub struct FormatDescriptor {
    pub block_size: usize,
    pub bytes_per_block: usize,
    pub element_width_bits: usize,
    pub header_fields: usize,
}

impl FormatDescriptor {
    /// Whether this descriptor is the one of format `f`.
    pub open spec fn describes(self, f: GgmlDType) -> bool {
        &&& self.block_size == block_size_of(f)
        &&& self.bytes_per_block == bytes_per_block_of(f)
        &&& self.element_width_bits == element_bits_of(f)
        &&& self.header_fields == header_fields_of(f)
    }
}

impl GgmlDType {
    /// The metadata of this format.
    pub fn descriptor(self) -> (r: FormatDescriptor)
        ensures
            r.describes(self),
    {
        match self {
            GgmlDType::F32 => FormatDescriptor {
                block_size: 1,
                bytes_per_block: 4,
                element_width_bits: 32,
                header_fields: 0,
            },
            GgmlDType::F16 => FormatDescriptor {
                block_size: 1,
                bytes_per_block: 2,
                element_width_bits: 16,
                header_fields: 0,
            },
            GgmlDType::Q4_0 => FormatDescriptor {
                block_size: 32,
                bytes_per_block: 18,
                element_width_bits: 4,
                header_fields: 1,
            },
            GgmlDType::Q4_1 => FormatDescriptor {
                block_size: 32,
                bytes_per_block: 20,
                element_width_bits: 4,
                header_fields: 2,
            },
            GgmlDType::Q8_0 => FormatDescriptor {
                block_size: 32,
                bytes_per_block: 34,
                element_width_bits: 8,
                header_fields: 1,
            },
        }
    }

    /// Number of elements per block.
    pub fn block_size(self) -> (r: usize)
        ensures
            r == block_size_of(self),
            r >= 1,
    {
        self.descriptor().block_size
    }

    /// Encoded bytes per block.
    pub fn type_size(self) -> (r: usize)
        ensures
            r == bytes_per_block_of(self),
            2 <= r <= 34,
    {
        self.descriptor().bytes_per_block
    }
}

} // verus!
