//! Byte-exact block layouts: packing a block's header fields and element
//! levels into bytes, and reading them back.
//!
//! Each block starts with its header fields, two bytes each, least
//! significant byte first. The levels follow: a four-bit format stores
//! element `j` (`j < 16`) in the low half of payload byte `j` and element
//! `j + 16` in the high half of that same byte; an eight-bit format stores one
//! byte per element; the 16- and 32-bit formats store each element's bits,
//! least significant byte first.
use vstd::prelude::*;
use crate::error::QuantError;
use crate::format::{
    GgmlDType, block_size_of, bytes_per_block_of, header_fields_of, element_bits_of,
    level_bound,
};

verus! {

/// The little-endian 16-bit value at byte `p` of `d`.
pub open spec fn le16(d: Seq<u8>, p: int) -> int {
    d[p] as int + 256 * d[p + 1] as int
}

/// The little-endian 32-bit value at byte `p` of `d`.
pub open spec fn le32(d: Seq<u8>, p: int) -> int {
    d[p] as int + 256 * d[p + 1] as int + 65536 * d[p + 2] as int + 16777216 * d[p + 3] as int
}

/// Header field `k` of the block that starts at byte `s` of `d`.
pub open spec fn header_in(d: Seq<u8>, s: int, k: int) -> int {
    le16(d, s + 2 * k)
}

/// Level of element `j` of a block of format `f` whose levels start at byte `p` of `d`.
pub open spec fn payload_level(f: GgmlDType, d: Seq<u8>, p: int, j: int) -> int {
    match f {
        GgmlDType::F32 => le32(d, p + 4 * j),
        GgmlDType::F16 => le16(d, p + 2 * j),
        GgmlDType::Q8_0 => d[p + j] as int,
        GgmlDType::Q4_0 | GgmlDType::Q4_1 => if j < 16 {
            d[p + j] as int % 16
        } else {
            d[p + j - 16] as int / 16
        },
    }
}

/// Level of element `j` of the block of format `f` that starts at byte `s` of `d`.
pub open spec fn level_in(f: GgmlDType, d: Seq<u8>, s: int, j: int) -> int {
    payload_level(f, d, s + 2 * header_fields_of(f), j)
}

/// The block of format `f` at byte `s` of `d` holds header fields `h` and levels `l`.
pub open spec fn block_holds(f: GgmlDType, d: Seq<u8>, s: int, h: Seq<u16>, l: Seq<u32>) -> bool {
    &&& 0 <= s
    &&& s + bytes_per_block_of(f) <= d.len()
    &&& h.len() == header_fields_of(f)
    &&& l.len() == block_size_of(f)
    &&& forall|k: int| 0 <= k < h.len() ==> header_in(d, s, k) == #[trigger] h[k] as int
    &&& forall|j: int| 0 <= j < l.len() ==> level_in(f, d, s, j) == #[trigger] l[j] as int
}

/// Every level in `l` is representable in format `f`.
pub open spec fn levels_fit(f: GgmlDType, l: Seq<u32>) -> bool {
    forall|j: int| 0 <= j < l.len() ==> (#[trigger] l[j] as int) < level_bound(f)
}

fn push_u16(out: &mut Vec<u8>, v: u16)
    ensures
        final(out)@.len() == old(out)@.len() + 2,
        forall|i: int| 0 <= i < old(out)@.len() ==> #[trigger] final(out)@[i] == old(out)@[i],
        le16(final(out)@, old(out)@.len() as int) == v as int,
{
    let lo = (v % 256) as u8;
    let hi = (v / 256) as u8;
    out.push(lo);
    out.push(hi);
}

fn push_u32(out: &mut Vec<u8>, v: u32)
    ensures
        final(out)@.len() == old(out)@.len() + 4,
        forall|i: int| 0 <= i < old(out)@.len() ==> #[trigger] final(out)@[i] == old(out)@[i],
        le32(final(out)@, old(out)@.len() as int) == v as int,
{
    let x1 = v / 256;
    let x2 = x1 / 256;
    let x3 = x2 / 256;
    out.push((v % 256) as u8);
    out.push((x1 % 256) as u8);
    out.push((x2 % 256) as u8);
    out.push(x3 as u8);
}

fn read_u16(d: &Vec<u8>, p: usize) -> (r: u16)
    requires
        p + 2 <= d@.len(),
    ensures
        r as int == le16(d@, p as int),
{
    // The buffer's length bounds the indices below.
    let _n = d.len();
    d[p] as u16 + 256 * (d[p + 1] as u16)
}

fn read_u32(d: &Vec<u8>, p: usize) -> (r: u32)
    requires
        p + 4 <= d@.len(),
    ensures
        r as int == le32(d@, p as int),
{
    // The buffer's length bounds the indices below.
    let _n = d.len();
    d[p] as u32 + 256 * (d[p + 1] as u32) + 65536 * (d[p + 2] as u32) + 16777216 * (
    d[p + 3] as u32)
}

fn header_fields(f: GgmlDType) -> (r: usize)
    ensures
        r == header_fields_of(f),
{
    f.descriptor().header_fields
}

/// Appends `n` header fields, taken from `headers[hs..]`.
fn encode_header(headers: &Vec<u16>, hs: usize, n: usize, out: &mut Vec<u8>)
    requires
        hs + n <= headers@.len(),
        old(out)@.len() + 2 * n <= usize::MAX,
    ensures
        final(out)@.len() == old(out)@.len() + 2 * n,
        forall|i: int| 0 <= i < old(out)@.len() ==> #[trigger] final(out)@[i] == old(out)@[i],
        forall|k: int|
            0 <= k < n ==> header_in(final(out)@, old(out)@.len() as int, k)
                == #[trigger] headers@[hs + k] as int,
{
    let start = out.len();
    let nh = headers.len();
    let mut k: usize = 0;
    while k < n
        invariant
            k <= n,
            hs + n <= nh,
            nh == headers@.len(),
            start == old(out)@.len(),
            start + 2 * n <= usize::MAX,
            out@.len() == start + 2 * k,
            forall|i: int| 0 <= i < start ==> #[trigger] out@[i] == old(out)@[i],
            forall|kk: int|
                0 <= kk < k ==> header_in(out@, start as int, kk) == #[trigger] headers@[hs + kk] as int,
        decreases n - k,
    {
        let ghost before = out@;
        push_u16(out, headers[hs + k]);
        assert forall|kk: int| 0 <= kk < k + 1 implies header_in(out@, start as int, kk)
            == #[trigger] headers@[hs + kk] as int by {
            if kk < k {
                assert(out@[start + 2 * kk] == before[start + 2 * kk]);
                assert(out@[start + 2 * kk + 1] == before[start + 2 * kk + 1]);
            }
        }
        k = k + 1;
    }
}

/// Appends the levels `levels[ls..ls + block size]` of one block of format `f`.
fn encode_levels(f: GgmlDType, levels: &Vec<u32>, ls: usize, out: &mut Vec<u8>)
    requires
        ls + block_size_of(f) <= levels@.len(),
        levels_fit(f, levels@.subrange(ls as int, ls + block_size_of(f))),
        old(out)@.len() + bytes_per_block_of(f) - 2 * header_fields_of(f) <= usize::MAX,
    ensures
        final(out)@.len() == old(out)@.len() + bytes_per_block_of(f) - 2 * header_fields_of(f),
        forall|i: int| 0 <= i < old(out)@.len() ==> #[trigger] final(out)@[i] == old(out)@[i],
        forall|j: int|
            0 <= j < block_size_of(f) ==> payload_level(f, final(out)@, old(out)@.len() as int, j)
                == #[trigger] levels@[ls + j] as int,
{
    let p = out.len();
    let nl = levels.len();
    let ghost lv = levels@.subrange(ls as int, ls + block_size_of(f));
    assert(forall|j: int| 0 <= j < lv.len() ==> lv[j] == levels@[ls + j]);
    match f {
        GgmlDType::F32 => {
            push_u32(out, levels[ls]);
        },
        GgmlDType::F16 => {
            assert(lv[0] < 0x1_0000);
            push_u16(out, levels[ls] as u16);
        },
        GgmlDType::Q8_0 => {
            let mut j: usize = 0;
            while j < 32
                invariant
                    j <= 32,
                    ls + 32 <= nl,
                    nl == levels@.len(),
                    lv == levels@.subrange(ls as int, ls + 32),
                    levels_fit(f, lv),
                    f == GgmlDType::Q8_0,
                    p == old(out)@.len(),
                    out@.len() == p + j,
                    forall|i: int| 0 <= i < p ==> #[trigger] out@[i] == old(out)@[i],
                    forall|jj: int| 0 <= jj < j ==> out@[p + jj] as int == #[trigger] levels@[ls + jj] as int,
                decreases 32 - j,
            {
                assert(lv[j as int] < 256);
                out.push(levels[ls + j] as u8);
                j = j + 1;
            }
        },
        GgmlDType::Q4_0 | GgmlDType::Q4_1 => {
            let mut j: usize = 0;
            while j < 16
                invariant
                    j <= 16,
                    ls + 32 <= nl,
                    nl == levels@.len(),
                    lv == levels@.subrange(ls as int, ls + 32),
                    levels_fit(f, lv),
                    f == GgmlDType::Q4_0 || f == GgmlDType::Q4_1,
                    p == old(out)@.len(),
                    out@.len() == p + j,
                    forall|i: int| 0 <= i < p ==> #[trigger] out@[i] == old(out)@[i],
                    forall|jj: int|
                        0 <= jj < j ==> out@[p + jj] as int % 16 == #[trigger] levels@[ls + jj] as int,
                    forall|jj: int|
                        0 <= jj < j ==> out@[p + jj] as int / 16 == #[trigger] levels@[ls + jj + 16] as int,
                decreases 16 - j,
            {
                let lo = levels[ls + j];
                let hi = levels[ls + j + 16];
                assert(lv[j as int] < 16 && lv[j + 16] < 16);
                out.push((lo + 16 * hi) as u8);
                j = j + 1;
            }
            assert forall|j: int| 0 <= j < 32 implies payload_level(f, out@, p as int, j)
                == #[trigger] levels@[ls + j] as int by {
                if j >= 16 {
                    assert(out@[p + (j - 16)] as int / 16 == levels@[ls + (j - 16) + 16] as int);
                }
            }
        },
    }
}

/// Appends the encoding of one block of format `f` to `out`: header fields
/// `headers[hs..hs + header count]` and levels `levels[ls..ls + block size]`.
pub fn encode_block(
    f: GgmlDType,
    headers: &Vec<u16>,
    hs: usize,
    levels: &Vec<u32>,
    ls: usize,
    out: &mut Vec<u8>,
)
    requires
        hs + header_fields_of(f) <= headers@.len(),
        ls + block_size_of(f) <= levels@.len(),
        levels_fit(f, levels@.subrange(ls as int, ls + block_size_of(f))),
        old(out)@.len() + bytes_per_block_of(f) <= usize::MAX,
    ensures
        final(out)@.len() == old(out)@.len() + bytes_per_block_of(f),
        forall|i: int| 0 <= i < old(out)@.len() ==> #[trigger] final(out)@[i] == old(out)@[i],
        block_holds(
            f,
            final(out)@,
            old(out)@.len() as int,
            headers@.subrange(hs as int, hs + header_fields_of(f)),
            levels@.subrange(ls as int, ls + block_size_of(f)),
        ),
{
    let start = out.len();
    let hf = header_fields(f);
    encode_header(headers, hs, hf, out);
    let ghost mid = out@;
    encode_levels(f, levels, ls, out);
    let ghost hv = headers@.subrange(hs as int, hs + header_fields_of(f));
    let ghost lv = levels@.subrange(ls as int, ls + block_size_of(f));
    assert forall|k: int| 0 <= k < hv.len() implies header_in(out@, start as int, k)
        == #[trigger] hv[k] as int by {
        assert(out@[start + 2 * k] == mid[start + 2 * k]);
        assert(out@[start + 2 * k + 1] == mid[start + 2 * k + 1]);
        assert(header_in(mid, start as int, k) == headers@[hs + k] as int);
    }
    assert forall|j: int| 0 <= j < lv.len() implies level_in(f, out@, start as int, j)
        == #[trigger] lv[j] as int by {
        assert(payload_level(f, out@, start + 2 * hf, j) == levels@[ls + j] as int);
    }
}

/// The header fields of the block of format `f` that starts at byte `s` of `d`.
pub open spec fn block_headers(f: GgmlDType, d: Seq<u8>, s: int) -> Seq<u16> {
    Seq::new(header_fields_of(f), |k: int| header_in(d, s, k) as u16)
}

/// The levels of the block of format `f` that starts at byte `s` of `d`.
pub open spec fn block_levels(f: GgmlDType, d: Seq<u8>, s: int) -> Seq<u32> {
    Seq::new(block_size_of(f), |j: int| level_in(f, d, s, j) as u32)
}

/// Reading back a block that was written with header fields `h` and levels
/// `l` gives exactly `h` and `l`.
pub proof fn lemma_block_round_trip(f: GgmlDType, d: Seq<u8>, s: int, h: Seq<u16>, l: Seq<u32>)
    requires
        block_holds(f, d, s, h, l),
    ensures
        block_headers(f, d, s) == h,
        block_levels(f, d, s) == l,
{
    assert(block_headers(f, d, s) =~= h);
    assert(block_levels(f, d, s) =~= l);
}

/// Appends the header fields and the levels of the block of format `f` that
/// starts at byte `s` of `data`.
pub fn decode_block(
    f: GgmlDType,
    data: &Vec<u8>,
    s: usize,
    headers: &mut Vec<u16>,
    levels: &mut Vec<u32>,
)
    requires
        s + bytes_per_block_of(f) <= data@.len(),
    ensures
        final(headers)@ == old(headers)@ + block_headers(f, data@, s as int),
        final(levels)@ == old(levels)@ + block_levels(f, data@, s as int),
{
    let hf = header_fields(f);
    let nd = data.len();
    let ghost h0 = headers@;
    let mut k: usize = 0;
    while k < hf
        invariant
            k <= hf,
            hf == header_fields_of(f),
            s + bytes_per_block_of(f) <= nd,
            nd == data@.len(),
            headers@ =~= h0 + block_headers(f, data@, s as int).subrange(0, k as int),
        decreases hf - k,
    {
        let v = read_u16(data, s + 2 * k);
        headers.push(v);
        k = k + 1;
    }
    assert(block_headers(f, data@, s as int).subrange(0, hf as int) =~= block_headers(f, data@, s as int));
    let p = s + 2 * hf;
    let ghost l0 = levels@;
    let ghost bl = block_levels(f, data@, s as int);
    match f {
        GgmlDType::F32 => {
            levels.push(read_u32(data, p));
            assert(levels@ =~= l0 + bl);
        },
        GgmlDType::F16 => {
            levels.push(read_u16(data, p) as u32);
            assert(levels@ =~= l0 + bl);
        },
        GgmlDType::Q8_0 => {
            let mut j: usize = 0;
            while j < 32
                invariant
                    j <= 32,
                    f == GgmlDType::Q8_0,
                    p == s + 2,
                    p + 32 <= nd,
                    nd == data@.len(),
                    bl == block_levels(f, data@, s as int),
                    levels@ =~= l0 + bl.subrange(0, j as int),
                decreases 32 - j,
            {
                levels.push(data[p + j] as u32);
                j = j + 1;
            }
            assert(bl.subrange(0, 32) =~= bl);
        },
        GgmlDType::Q4_0 | GgmlDType::Q4_1 => {
            let mut j: usize = 0;
            while j < 16
                invariant
                    j <= 16,
                    f == GgmlDType::Q4_0 || f == GgmlDType::Q4_1,
                    p == s + 2 * header_fields_of(f),
                    p + 16 <= nd,
                    nd == data@.len(),
                    bl == block_levels(f, data@, s as int),
                    levels@ =~= l0 + bl.subrange(0, j as int),
                decreases 16 - j,
            {
                levels.push((data[p + j] % 16) as u32);
                j = j + 1;
            }
            let mut j: usize = 0;
            while j < 16
                invariant
                    j <= 16,
                    f == GgmlDType::Q4_0 || f == GgmlDType::Q4_1,
                    p == s + 2 * header_fields_of(f),
                    p + 16 <= nd,
                    nd == data@.len(),
                    bl == block_levels(f, data@, s as int),
                    levels@ =~= l0 + bl.subrange(0, 16 + j),
                decreases 16 - j,
            {
                levels.push((data[p + j] / 16) as u32);
                j = j + 1;
            }
            assert(bl.subrange(0, 32) =~= bl);
        },
    }
}

/// The levels of blocks `a..b` of format `f` laid out from byte 0 of `d`, in order.
pub open spec fn levels_of_blocks(f: GgmlDType, d: Seq<u8>, a: int, b: int) -> Seq<u32>
    decreases b - a,
{
    if b <= a {
        Seq::empty()
    } else {
        levels_of_blocks(f, d, a, b - 1) + block_levels(f, d, (b - 1) * bytes_per_block_of(f))
    }
}

/// The header fields of blocks `a..b` of format `f` laid out from byte 0 of `d`, in order.
pub open spec fn headers_of_blocks(f: GgmlDType, d: Seq<u8>, a: int, b: int) -> Seq<u16>
    decreases b - a,
{
    if b <= a {
        Seq::empty()
    } else {
        headers_of_blocks(f, d, a, b - 1) + block_headers(f, d, (b - 1) * bytes_per_block_of(f))
    }
}

/// Decoding a range of blocks in two pieces and joining the results gives
/// the same as decoding the whole range at once.
pub proof fn lemma_split_decode(f: GgmlDType, d: Seq<u8>, a: int, b: int, c: int)
    requires
        a <= b <= c,
    ensures
        levels_of_blocks(f, d, a, b) + levels_of_blocks(f, d, b, c) == levels_of_blocks(f, d, a, c),
        headers_of_blocks(f, d, a, b) + headers_of_blocks(f, d, b, c) == headers_of_blocks(f, d, a, c),
    decreases c - b,
{
    if c == b {
        assert(levels_of_blocks(f, d, a, b) + levels_of_blocks(f, d, b, c) =~= levels_of_blocks(f, d, a, c));
        assert(headers_of_blocks(f, d, a, b) + headers_of_blocks(f, d, b, c) =~= headers_of_blocks(f, d, a, c));
    } else {
        lemma_split_decode(f, d, a, b, c - 1);
        let bpb = bytes_per_block_of(f);
        assert(levels_of_blocks(f, d, a, b) + levels_of_blocks(f, d, b, c) =~= levels_of_blocks(f, d, a, c));
        assert(headers_of_blocks(f, d, a, b) + headers_of_blocks(f, d, b, c) =~= headers_of_blocks(f, d, a, c));
    }
}

/// Appends the header fields and levels of blocks `first..last` of `data`,
/// whose blocks of format `f` are laid out from byte 0.
pub fn decode_blocks(
    f: GgmlDType,
    data: &Vec<u8>,
    first: usize,
    last: usize,
    headers: &mut Vec<u16>,
    levels: &mut Vec<u32>,
)
    requires
        first <= last,
        last * bytes_per_block_of(f) <= data@.len(),
    ensures
        final(headers)@ == old(headers)@ + headers_of_blocks(f, data@, first as int, last as int),
        final(levels)@ == old(levels)@ + levels_of_blocks(f, data@, first as int, last as int),
{
    let bpb = f.type_size();
    let nd = data.len();
    let ghost h0 = headers@;
    let ghost l0 = levels@;
    let mut b: usize = first;
    proof {
        vstd::arithmetic::mul::lemma_mul_inequality(first as int, last as int, bpb as int);
    }
    let mut s: usize = first * bpb;
    while b < last
        invariant
            first <= b <= last,
            bpb == bytes_per_block_of(f),
            last * bpb <= nd,
            nd == data@.len(),
            s == b * bpb,
            headers@ =~= h0 + headers_of_blocks(f, data@, first as int, b as int),
            levels@ =~= l0 + levels_of_blocks(f, data@, first as int, b as int),
        decreases last - b,
    {
        proof {
            assert((b + 1) * bpb == b * bpb + bpb) by (nonlinear_arith);
            vstd::arithmetic::mul::lemma_mul_inequality(b + 1, last as int, bpb as int);
        }
        decode_block(f, data, s, headers, levels);
        b = b + 1;
        s = s + bpb;
    }
}

/// A block reads the same from two buffers that agree on its bytes.
pub proof fn lemma_block_frame(f: GgmlDType, d1: Seq<u8>, d2: Seq<u8>, s: int)
    requires
        0 <= s,
        s + bytes_per_block_of(f) <= d1.len(),
        s + bytes_per_block_of(f) <= d2.len(),
        forall|i: int| s <= i < s + bytes_per_block_of(f) ==> #[trigger] d1[i] == d2[i],
    ensures
        block_levels(f, d1, s) == block_levels(f, d2, s),
        block_headers(f, d1, s) == block_headers(f, d2, s),
{
    assert forall|j: int| 0 <= j < block_size_of(f) implies level_in(f, d1, s, j) == level_in(f, d2, s, j) by {
        let p = s + 2 * header_fields_of(f);
        match f {
            GgmlDType::F32 => {
                assert(d1[p + 4 * j + 1] == d2[p + 4 * j + 1]);
                assert(d1[p + 4 * j + 2] == d2[p + 4 * j + 2]);
                assert(d1[p + 4 * j + 3] == d2[p + 4 * j + 3]);
            },
            GgmlDType::F16 => {
                assert(d1[p + 2 * j + 1] == d2[p + 2 * j + 1]);
            },
            _ => {},
        }
    }
    assert forall|k: int| 0 <= k < header_fields_of(f) implies header_in(d1, s, k) == header_in(d2, s, k) by {
        assert(d1[s + 2 * k + 1] == d2[s + 2 * k + 1]);
    }
    assert(block_levels(f, d1, s) =~= block_levels(f, d2, s));
    assert(block_headers(f, d1, s) =~= block_headers(f, d2, s));
}

/// Blocks `0..b` read the same from two buffers that agree on their bytes.
pub proof fn lemma_blocks_frame(f: GgmlDType, d1: Seq<u8>, d2: Seq<u8>, b: int)
    requires
        0 <= b,
        b * bytes_per_block_of(f) <= d1.len(),
        b * bytes_per_block_of(f) <= d2.len(),
        forall|i: int| 0 <= i < b * bytes_per_block_of(f) ==> #[trigger] d1[i] == d2[i],
    ensures
        levels_of_blocks(f, d1, 0, b) == levels_of_blocks(f, d2, 0, b),
        headers_of_blocks(f, d1, 0, b) == headers_of_blocks(f, d2, 0, b),
    decreases b,
{
    if b > 0 {
        let bpb = bytes_per_block_of(f);
        assert((b - 1) * bpb + bpb == b * bpb) by (nonlinear_arith);
        assert(0 <= (b - 1) * bpb) by (nonlinear_arith) requires b >= 1;
        lemma_blocks_frame(f, d1, d2, b - 1);
        lemma_block_frame(f, d1, d2, (b - 1) * bpb);
    }
}

/// Decodes the first `blocks` blocks of format `f` from `data`, refusing
/// before reading anything when the buffer is too short to hold them.
pub fn decode_buffer(f: GgmlDType, data: &Vec<u8>, blocks: usize) -> (r: Result<
    (Vec<u16>, Vec<u32>),
    QuantError,
>)
    ensures
        blocks * bytes_per_block_of(f) > data@.len() ==> r == Err::<(Vec<u16>, Vec<u32>), QuantError>(
            QuantError::StructuralRead {
                needed: if blocks * bytes_per_block_of(f) > usize::MAX {
                    usize::MAX
                } else {
                    (blocks * bytes_per_block_of(f)) as usize
                },
                available: data@.len() as usize,
            },
        ),
        blocks * bytes_per_block_of(f) <= data@.len() ==> (r matches Ok((h, l)) && h@
            == headers_of_blocks(f, data@, 0, blocks as int) && l@ == levels_of_blocks(
            f,
            data@,
            0,
            blocks as int,
        )),
{
    match blocks.checked_mul(f.type_size()) {
        Some(needed) => {
            if needed > data.len() {
                return Err(QuantError::StructuralRead { needed, available: data.len() });
            }
        },
        None => {
            return Err(QuantError::StructuralRead { needed: usize::MAX, available: data.len() });
        },
    }
    let mut headers: Vec<u16> = Vec::new();
    let mut levels: Vec<u32> = Vec::new();
    decode_blocks(f, data, 0, blocks, &mut headers, &mut levels);
    proof {
        assert(headers@ =~= headers_of_blocks(f, data@, 0, blocks as int));
        assert(levels@ =~= levels_of_blocks(f, data@, 0, blocks as int));
    }
    Ok((headers, levels))
}

} // verus!
