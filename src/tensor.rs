//! The quantized tensor: a shape, a format and the block-encoded bytes,
//! validated at construction and read-only afterwards.
use vstd::prelude::*;
use crate::codec::{
    decode_blocks, encode_block, headers_of_blocks, lemma_block_round_trip, lemma_blocks_frame,
    levels_fit, levels_of_blocks,
};
use crate::error::QuantError;
use crate::utils::IsMultipleOf;
use crate::format::{GgmlDType, block_size_of, bytes_per_block_of, header_fields_of};

verus! {

/// The number of elements of a tensor of shape `s`.
pub open spec fn shape_product(s: Seq<usize>) -> int
    decreases s.len(),
{
    if s.len() == 0 {
        1
    } else {
        shape_product(s.drop_last()) * s.last() as int
    }
}

proof fn lemma_product_nonneg(s: Seq<usize>)
    ensures
        shape_product(s) >= 0,
    decreases s.len(),
{
    if s.len() > 0 {
        lemma_product_nonneg(s.drop_last());
        assert(shape_product(s.drop_last()) * s.last() as int >= 0) by (nonlinear_arith)
            requires shape_product(s.drop_last()) >= 0;
    }
}

proof fn lemma_product_zero(s: Seq<usize>, i: int)
    requires
        0 <= i < s.len(),
        s[i] == 0,
    ensures
        shape_product(s) == 0,
    decreases s.len(),
{
    let a = shape_product(s.drop_last());
    let x = s.last() as int;
    if i < s.len() - 1 {
        lemma_product_zero(s.drop_last(), i);
        assert(a * x == 0) by (nonlinear_arith) requires a == 0;
    } else {
        assert(a * x == 0) by (nonlinear_arith) requires x == 0;
    }
}

proof fn lemma_product_positive(s: Seq<usize>)
    requires
        forall|i: int| 0 <= i < s.len() ==> #[trigger] s[i] >= 1,
    ensures
        shape_product(s) >= 1,
    decreases s.len(),
{
    if s.len() > 0 {
        lemma_product_positive(s.drop_last());
        let a = shape_product(s.drop_last());
        let x = s.last() as int;
        assert(a * x >= 1) by (nonlinear_arith) requires a >= 1, x >= 1;
    }
}

proof fn lemma_product_grows(s: Seq<usize>, n: int, m: int)
    requires
        0 <= n <= m <= s.len(),
        forall|i: int| 0 <= i < s.len() ==> #[trigger] s[i] >= 1,
    ensures
        1 <= shape_product(s.subrange(0, n)) <= shape_product(s.subrange(0, m)),
    decreases m - n,
{
    if m == n {
        lemma_product_positive(s.subrange(0, n));
    } else {
        lemma_product_grows(s, n, m - 1);
        assert(s.subrange(0, m).drop_last() =~= s.subrange(0, m - 1));
        let a = shape_product(s.subrange(0, m - 1));
        let x = s[m - 1] as int;
        assert(a <= a * x) by (nonlinear_arith) requires a >= 1, x >= 1;
    }
}

/// The number of elements of a tensor of shape `shape`, or `None` where that
/// number does not fit in `usize`.
pub fn elem_count(shape: &Vec<usize>) -> (r: Option<usize>)
    ensures
        match r {
            Some(n) => n == shape_product(shape@),
            None => shape_product(shape@) > usize::MAX,
        },
{
    let n = shape.len();
    let mut i: usize = 0;
    while i < n
        invariant
            i <= n,
            n == shape@.len(),
            forall|k: int| 0 <= k < i ==> #[trigger] shape@[k] >= 1,
        decreases n - i,
    {
        if shape[i] == 0 {
            proof {
                lemma_product_zero(shape@, i as int);
            }
            return Some(0);
        }
        i = i + 1;
    }
    let mut acc: usize = 1;
    let mut i: usize = 0;
    while i < n
        invariant
            i <= n,
            n == shape@.len(),
            forall|k: int| 0 <= k < n ==> #[trigger] shape@[k] >= 1,
            acc == shape_product(shape@.subrange(0, i as int)),
        decreases n - i,
    {
        proof {
            assert(shape@.subrange(0, i + 1).drop_last() =~= shape@.subrange(0, i as int));
        }
        match acc.checked_mul(shape[i]) {
            Some(v) => {
                acc = v;
            },
            None => {
                proof {
                    lemma_product_grows(shape@, i + 1, n as int);
                    assert(shape@.subrange(0, n as int) =~= shape@);
                }
                return None;
            },
        }
        i = i + 1;
    }
    proof {
        assert(shape@.subrange(0, n as int) =~= shape@);
    }
    Some(acc)
}

/// Byte length of the encoding of `n` elements in format `f`.
pub open spec fn storage_len_of(n: int, f: GgmlDType) -> int {
    n / block_size_of(f) as int * bytes_per_block_of(f) as int
}

/// A tensor stored in a block-quantized format.
pub struct QuantizedTensor {
    shape: Vec<usize>,
    dtype: GgmlDType,
    data: Vec<u8>,
}

impl QuantizedTensor {
    /// The dimensions of the tensor.
    pub closed spec fn shape_view(&self) -> Seq<usize> {
        self.shape@
    }

    /// The storage format.
    pub closed spec fn dtype_view(&self) -> GgmlDType {
        self.dtype
    }

    /// The encoded blocks.
    pub closed spec fn bytes_view(&self) -> Seq<u8> {
        self.data@
    }

    /// The element count is a whole number of blocks, and the buffer holds
    /// exactly those blocks.
    #[verifier::type_invariant]
    pub closed spec fn wf(&self) -> bool {
        let n = shape_product(self.shape_view());
        let f = self.dtype_view();
        &&& n <= usize::MAX
        &&& n % block_size_of(f) as int == 0
        &&& self.bytes_view().len() == storage_len_of(n, f)
    }

    /// The number of blocks.
    pub open spec fn block_count_view(&self) -> int {
        shape_product(self.shape_view()) / block_size_of(self.dtype_view()) as int
    }

    /// The levels of every element, in row-major order.
    pub open spec fn levels_view(&self) -> Seq<u32> {
        levels_of_blocks(self.dtype_view(), self.bytes_view(), 0, self.block_count_view())
    }

    /// The header fields of every block, in order.
    pub open spec fn headers_view(&self) -> Seq<u16> {
        headers_of_blocks(self.dtype_view(), self.bytes_view(), 0, self.block_count_view())
    }

    /// Builds a tensor from already encoded bytes, after checking that the
    /// element count is a whole number of blocks and that the buffer holds
    /// exactly that many blocks.
    pub fn from_bytes(shape: Vec<usize>, dtype: GgmlDType, data: Vec<u8>) -> (r: Result<
        QuantizedTensor,
        QuantError,
    >)
        requires
            shape_product(shape@) <= usize::MAX,
        ensures
            shape_product(shape@) % block_size_of(dtype) as int != 0 ==> r == Err::<
                QuantizedTensor,
                QuantError,
            >(
                QuantError::Alignment {
                    elem_count: shape_product(shape@) as usize,
                    block_size: block_size_of(dtype) as usize,
                },
            ),
            shape_product(shape@) % block_size_of(dtype) as int == 0 && data@.len()
                != storage_len_of(shape_product(shape@), dtype) ==> r == Err::<
                QuantizedTensor,
                QuantError,
            >(
                QuantError::SizeMismatch {
                    expected: storage_len_of(shape_product(shape@), dtype) as u128,
                    actual: data@.len() as usize,
                },
            ),
            shape_product(shape@) % block_size_of(dtype) as int == 0 && data@.len()
                == storage_len_of(shape_product(shape@), dtype) ==> r is Ok,
            r matches Ok(t) ==> t.wf() && t.shape_view() == shape@ && t.dtype_view() == dtype
                && t.bytes_view() == data@,
    {
        let n = match elem_count(&shape) {
            Some(n) => n,
            // Unreachable: the precondition keeps the product within usize.
            None => {
                return Err(QuantError::Alignment { elem_count: 0, block_size: 0 });
            },
        };
        let bs = dtype.block_size();
        if !IsMultipleOf::is_multiple_of(n, bs) {
            return Err(QuantError::Alignment { elem_count: n, block_size: bs });
        }
        let nb = n / bs;
        let bpb = dtype.type_size();
        proof {
            assert(nb as int * bpb as int <= 0xffff_ffff_ffff_ffff * 34) by (nonlinear_arith)
                requires nb <= 0xffff_ffff_ffff_ffff, bpb <= 34;
        }
        let expected = nb as u128 * bpb as u128;
        if data.len() as u128 != expected {
            return Err(QuantError::SizeMismatch { expected, actual: data.len() });
        }
        Ok(QuantizedTensor { shape, dtype, data })
    }

    /// Builds a tensor from the header fields and levels of its blocks,
    /// encoding them block after block: block `b` takes header fields
    /// `headers[b * header count..]` and levels `levels[b * block size..]`.
    pub fn from_levels(
        shape: Vec<usize>,
        dtype: GgmlDType,
        headers: &Vec<u16>,
        levels: &Vec<u32>,
    ) -> (r: Result<QuantizedTensor, QuantError>)
        requires
            shape_product(shape@) <= usize::MAX,
            storage_len_of(shape_product(shape@), dtype) <= usize::MAX,
            levels_fit(dtype, levels@),
        ensures
            shape_product(shape@) % block_size_of(dtype) as int != 0 ==> r == Err::<
                QuantizedTensor,
                QuantError,
            >(
                QuantError::Alignment {
                    elem_count: shape_product(shape@) as usize,
                    block_size: block_size_of(dtype) as usize,
                },
            ),
            shape_product(shape@) % block_size_of(dtype) as int == 0 && levels@.len()
                != shape_product(shape@) ==> r == Err::<QuantizedTensor, QuantError>(
                QuantError::SizeMismatch {
                    expected: shape_product(shape@) as u128,
                    actual: levels@.len() as usize,
                },
            ),
            shape_product(shape@) % block_size_of(dtype) as int == 0 && levels@.len()
                == shape_product(shape@) && headers@.len() != shape_product(shape@)
                / block_size_of(dtype) as int * header_fields_of(dtype) ==> r == Err::<
                QuantizedTensor,
                QuantError,
            >(
                QuantError::SizeMismatch {
                    expected: (shape_product(shape@) / block_size_of(dtype) as int
                        * header_fields_of(dtype)) as u128,
                    actual: headers@.len() as usize,
                },
            ),
            shape_product(shape@) % block_size_of(dtype) as int == 0 && levels@.len()
                == shape_product(shape@) && headers@.len() == shape_product(shape@)
                / block_size_of(dtype) as int * header_fields_of(dtype) ==> r is Ok,
            r matches Ok(t) ==> t.wf() && t.shape_view() == shape@ && t.dtype_view() == dtype
                && t.levels_view() == levels@ && t.headers_view() == headers@,
    {
        let n = match elem_count(&shape) {
            Some(n) => n,
            // Unreachable: the precondition keeps the product within usize.
            None => {
                return Err(QuantError::Alignment { elem_count: 0, block_size: 0 });
            },
        };
        let bs = dtype.block_size();
        if !IsMultipleOf::is_multiple_of(n, bs) {
            return Err(QuantError::Alignment { elem_count: n, block_size: bs });
        }
        if levels.len() != n {
            return Err(QuantError::SizeMismatch { expected: n as u128, actual: levels.len() });
        }
        let nb = n / bs;
        let hf = dtype.descriptor().header_fields;
        let bpb = dtype.type_size();
        proof {
            assert(nb * hf <= nb * 2) by (nonlinear_arith) requires hf <= 2;
            vstd::arithmetic::div_mod::lemma_fundamental_div_mod(n as int, bs as int);
        }
        if headers.len() != nb * hf {
            return Err(QuantError::SizeMismatch { expected: (nb * hf) as u128, actual: headers.len() });
        }
        let mut data: Vec<u8> = Vec::new();
        let mut b: usize = 0;
        let mut hs: usize = 0;
        let mut ls: usize = 0;
        while b < nb
            invariant
                b <= nb,
                bs == block_size_of(dtype),
                hf == header_fields_of(dtype),
                bpb == bytes_per_block_of(dtype),
                nb * bpb <= usize::MAX,
                nb * bs <= usize::MAX,
                levels@.len() == nb * bs,
                headers@.len() == nb * hf,
                levels_fit(dtype, levels@),
                hs == b * hf,
                ls == b * bs,
                data@.len() == b * bpb,
                levels_of_blocks(dtype, data@, 0, b as int) == levels@.subrange(0, ls as int),
                headers_of_blocks(dtype, data@, 0, b as int) == headers@.subrange(0, hs as int),
            decreases nb - b,
        {
            proof {
                assert((b + 1) * hf == b * hf + hf) by (nonlinear_arith);
                assert((b + 1) * bs == b * bs + bs) by (nonlinear_arith);
                assert((b + 1) * bpb == b * bpb + bpb) by (nonlinear_arith);
                vstd::arithmetic::mul::lemma_mul_inequality(b + 1, nb as int, hf as int);
                vstd::arithmetic::mul::lemma_mul_inequality(b + 1, nb as int, bs as int);
                vstd::arithmetic::mul::lemma_mul_inequality(b + 1, nb as int, bpb as int);
                assert(levels_fit(dtype, levels@.subrange(ls as int, ls + bs)));
            }
            let ghost d0 = data@;
            encode_block(dtype, headers, hs, levels, ls, &mut data);
            proof {
                lemma_blocks_frame(dtype, d0, data@, b as int);
                lemma_block_round_trip(
                    dtype,
                    data@,
                    b * bpb,
                    headers@.subrange(hs as int, hs + hf),
                    levels@.subrange(ls as int, ls + bs),
                );
                assert(levels@.subrange(0, ls as int) + levels@.subrange(ls as int, ls + bs)
                    =~= levels@.subrange(0, ls + bs));
                assert(headers@.subrange(0, hs as int) + headers@.subrange(hs as int, hs + hf)
                    =~= headers@.subrange(0, hs + hf));
            }
            b = b + 1;
            hs = hs + hf;
            ls = ls + bs;
        }
        proof {
            assert(levels@.subrange(0, ls as int) =~= levels@);
            assert(headers@.subrange(0, hs as int) =~= headers@);
        }
        Ok(QuantizedTensor { shape, dtype, data })
    }

    /// The dimensions of the tensor.
    pub fn shape(&self) -> (r: &Vec<usize>)
        ensures
            r@ == self.shape_view(),
    {
        &self.shape
    }

    /// The storage format.
    pub fn dtype(&self) -> (r: GgmlDType)
        ensures
            r == self.dtype_view(),
    {
        self.dtype
    }

    /// The encoded blocks.
    pub fn data(&self) -> (r: &Vec<u8>)
        ensures
            r@ == self.bytes_view(),
    {
        &self.data
    }

    /// The number of elements.
    pub fn elem_count(&self) -> (r: usize)
        ensures
            r == shape_product(self.shape_view()),
    {
        proof {
            use_type_invariant(self);
        }
        match elem_count(&self.shape) {
            Some(n) => n,
            None => 0,
        }
    }

    /// The number of blocks.
    pub fn block_count(&self) -> (r: usize)
        ensures
            r == self.block_count_view(),
    {
        self.elem_count() / self.dtype.block_size()
    }

    /// Decodes the header fields and levels of blocks `first..last`,
    /// appending them to `headers` and `levels`.
    pub fn decode_range(&self, first: usize, last: usize, headers: &mut Vec<u16>, levels: &mut Vec<u32>)
        requires
            first <= last <= self.block_count_view(),
        ensures
            final(headers)@ == old(headers)@ + headers_of_blocks(
                self.dtype_view(),
                self.bytes_view(),
                first as int,
                last as int,
            ),
            final(levels)@ == old(levels)@ + levels_of_blocks(
                self.dtype_view(),
                self.bytes_view(),
                first as int,
                last as int,
            ),
    {
        proof {
            use_type_invariant(self);
            let n = shape_product(self.shape_view());
            let bs = block_size_of(self.dtype);
            vstd::arithmetic::mul::lemma_mul_inequality(
                last as int,
                n / bs as int,
                bytes_per_block_of(self.dtype) as int,
            );
        }
        decode_blocks(self.dtype, &self.data, first, last, headers, levels);
    }
}

} // verus!
