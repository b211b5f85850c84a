use candle_quant::codec::{decode_block, encode_block};
use candle_quant::dispatch::{partition, preferred_backend, simd_lanes, Backend, Dispatcher};
use candle_quant::error::QuantError;
use candle_quant::format::GgmlDType;
use candle_quant::tensor::{elem_count, QuantizedTensor};
use candle_quant::utils::{
    cuda_is_available, get_num_threads, has_accelerate, has_mkl, metal_is_available,
    resolve_num_threads, with_avx, with_f16c, with_neon, with_simd128, Capabilities,
    IsMultipleOf,
};

fn caps_all() -> Capabilities {
    Capabilities {
        accelerate: true,
        mkl: false,
        cuda: false,
        metal: false,
        avx: true,
        neon: false,
        simd128: false,
        f16c: true,
    }
}

#[test]
fn multiple_of_each_width() {
    assert!(IsMultipleOf::is_multiple_of(64usize, 32usize));
    assert!(!IsMultipleOf::is_multiple_of(63usize, 32usize));
    assert!(IsMultipleOf::is_multiple_of(0u8, 7u8));
    assert!(!IsMultipleOf::is_multiple_of(0u16, 0u16));
    assert!(!IsMultipleOf::is_multiple_of(12u32, 0u32));
    assert!(IsMultipleOf::is_multiple_of(1u64 << 40, 1u64 << 20));
    assert!(IsMultipleOf::is_multiple_of(u128::MAX, 5u128));
    assert!(!IsMultipleOf::is_multiple_of(10u128, 3u128));
}

#[test]
fn thread_count_resolution() {
    assert_eq!(resolve_num_threads(Some(6), 2), 6);
    assert_eq!(resolve_num_threads(Some(0), 3), 3);
    assert_eq!(resolve_num_threads(None, 5), 5);
    assert_eq!(get_num_threads(Some("4")), 4);
    assert_eq!(get_num_threads(Some("+12")), 12);
    assert!(get_num_threads(Some("0")) >= 1);
    assert!(get_num_threads(Some("many")) >= 1);
    assert!(get_num_threads(Some(" 3")) >= 1);
    assert!(get_num_threads(None) >= 1);
}

#[test]
fn capability_queries_read_the_set() {
    let c = caps_all();
    assert!(has_accelerate(&c));
    assert!(!has_mkl(&c));
    assert!(!cuda_is_available(&c));
    assert!(!metal_is_available(&c));
    assert!(with_avx(&c));
    assert!(!with_neon(&c));
    assert!(!with_simd128(&c));
    assert!(with_f16c(&c));
    let n = Capabilities::none();
    assert!(!has_accelerate(&n) && !with_avx(&n) && !with_f16c(&n));
}

#[test]
fn format_metadata() {
    let d = GgmlDType::Q8_0.descriptor();
    assert_eq!(d.block_size, 32);
    assert_eq!(d.bytes_per_block, 34);
    assert_eq!(d.element_width_bits, 8);
    assert_eq!(GgmlDType::Q4_0.type_size(), 18);
    assert_eq!(GgmlDType::Q4_1.type_size(), 20);
    assert_eq!(GgmlDType::F16.type_size(), 2);
    assert_eq!(GgmlDType::F32.type_size(), 4);
    assert_eq!(GgmlDType::F32.block_size(), 1);
    assert_eq!(GgmlDType::Q4_1.descriptor().header_fields, 2);
}

#[test]
fn q4_block_layout_is_byte_exact() {
    let headers = vec![0x3c00u16];
    let levels: Vec<u32> = (0..32u32).map(|j| j % 16).collect();
    let mut out = vec![0xaau8];
    encode_block(GgmlDType::Q4_0, &headers, 0, &levels, 0, &mut out);
    assert_eq!(out.len(), 1 + 18);
    assert_eq!(out[0], 0xaa);
    assert_eq!(out[1], 0x00);
    assert_eq!(out[2], 0x3c);
    for j in 0..16usize {
        assert_eq!(out[3 + j], (j as u8) | ((j as u8) << 4));
    }
    let mut h = Vec::new();
    let mut l = Vec::new();
    decode_block(GgmlDType::Q4_0, &out, 1, &mut h, &mut l);
    assert_eq!(h, headers);
    assert_eq!(l, levels);
}

#[test]
fn q8_and_float_block_layouts() {
    let mut out = Vec::new();
    let levels: Vec<u32> = (0..32u32).map(|j| 255 - j).collect();
    encode_block(GgmlDType::Q8_0, &vec![0x1234u16], 0, &levels, 0, &mut out);
    assert_eq!(&out[0..3], &[0x34, 0x12, 255]);
    let mut out = Vec::new();
    encode_block(GgmlDType::F32, &vec![], 0, &vec![0x3f80_0000u32], 0, &mut out);
    assert_eq!(out, 1.0f32.to_le_bytes().to_vec());
    let mut h = Vec::new();
    let mut l = Vec::new();
    decode_block(GgmlDType::F32, &out, 0, &mut h, &mut l);
    assert!(h.is_empty());
    assert_eq!(f32::from_bits(l[0]), 1.0);
}

#[test]
fn element_count_of_shapes() {
    assert_eq!(elem_count(&vec![64, 128]), Some(8192));
    assert_eq!(elem_count(&vec![]), Some(1));
    assert_eq!(elem_count(&vec![usize::MAX, 2]), None);
    assert_eq!(elem_count(&vec![usize::MAX, 2, 0]), Some(0));
}

#[test]
fn misaligned_shape_is_refused() {
    let r = QuantizedTensor::from_bytes(vec![63], GgmlDType::Q8_0, vec![]);
    assert_eq!(r.err(), Some(QuantError::Alignment { elem_count: 63, block_size: 32 }));
    let r = QuantizedTensor::from_levels(vec![63], GgmlDType::Q8_0, &vec![0], &vec![0; 63]);
    assert_eq!(r.err(), Some(QuantError::Alignment { elem_count: 63, block_size: 32 }));
}

#[test]
fn alignment_edges() {
    let t = QuantizedTensor::from_bytes(vec![0, 5], GgmlDType::Q4_0, vec![]).unwrap();
    assert_eq!(t.elem_count(), 0);
    assert_eq!(t.block_count(), 0);
    let t = QuantizedTensor::from_bytes(vec![32], GgmlDType::Q4_0, vec![0; 18]).unwrap();
    assert_eq!(t.block_count(), 1);
    let r = QuantizedTensor::from_bytes(vec![33], GgmlDType::Q4_0, vec![0; 18]);
    assert!(matches!(r, Err(QuantError::Alignment { .. })));
}

#[test]
fn size_mismatch_is_refused() {
    let r = QuantizedTensor::from_bytes(vec![2, 32], GgmlDType::Q8_0, vec![0; 67]);
    assert_eq!(r.err(), Some(QuantError::SizeMismatch { expected: 68, actual: 67 }));
    let r = QuantizedTensor::from_levels(vec![32], GgmlDType::Q8_0, &vec![1], &vec![0; 31]);
    assert_eq!(r.err(), Some(QuantError::SizeMismatch { expected: 32, actual: 31 }));
    let r = QuantizedTensor::from_levels(vec![32], GgmlDType::Q4_1, &vec![1], &vec![0; 32]);
    assert_eq!(r.err(), Some(QuantError::SizeMismatch { expected: 2, actual: 1 }));
}

#[test]
fn unavailable_backend_is_refused() {
    let t = QuantizedTensor::from_bytes(vec![32], GgmlDType::Q8_0, vec![0; 34]).unwrap();
    let d = Dispatcher::new(Capabilities::none(), 2);
    let r = d.dequantize_levels(&t, Backend::Vectorized);
    assert_eq!(r.err(), Some(QuantError::BackendUnavailable { backend: Backend::Vectorized }));
    let r = d.dequantize_levels(&t, Backend::Parallel);
    assert_eq!(r.err(), Some(QuantError::BackendUnavailable { backend: Backend::Parallel }));
}

#[test]
fn backend_selection() {
    assert_eq!(preferred_backend(&Capabilities::none()), Backend::Scalar);
    assert_eq!(preferred_backend(&caps_all()), Backend::Parallel);
    let mut c = Capabilities::none();
    c.neon = true;
    assert_eq!(preferred_backend(&c), Backend::Vectorized);
    assert_eq!(simd_lanes(&c), 4);
    assert_eq!(simd_lanes(&caps_all()), 8);
    assert!(Backend::Scalar.is_available(&Capabilities::none()));
}

#[test]
fn partition_covers_the_range() {
    assert_eq!(partition(10, 3), vec![0, 4, 8, 10]);
    assert_eq!(partition(9, 3), vec![0, 3, 6, 9]);
    assert_eq!(partition(2, 4), vec![0, 1, 2, 2, 2]);
    assert_eq!(partition(0, 1), vec![0, 0]);
}

fn sample_levels(n: usize, f: GgmlDType) -> Vec<u32> {
    let bound: u64 = match f {
        GgmlDType::Q4_0 | GgmlDType::Q4_1 => 16,
        GgmlDType::Q8_0 => 256,
        GgmlDType::F16 => 1 << 16,
        GgmlDType::F32 => 1 << 32,
    };
    let mut x: u64 = 0x9e37_79b9_7f4a_7c15;
    (0..n)
        .map(|_| {
            x ^= x << 13;
            x ^= x >> 7;
            x ^= x << 17;
            (x % bound) as u32
        })
        .collect()
}

#[test]
fn strategies_agree_and_repeat() {
    for f in [GgmlDType::Q4_0, GgmlDType::Q4_1, GgmlDType::Q8_0, GgmlDType::F16, GgmlDType::F32] {
        let n = 7 * 32;
        let nb = n / f.block_size();
        let hf = f.descriptor().header_fields;
        let headers: Vec<u16> = (0..nb * hf).map(|i| (i * 977) as u16).collect();
        let levels = sample_levels(n, f);
        let t = QuantizedTensor::from_levels(vec![7, 32], f, &headers, &levels).unwrap();
        assert_eq!(t.data().len(), nb * f.type_size());
        for threads in [1usize, 2, 3, 16] {
            let d = Dispatcher::new(caps_all(), threads);
            let a = d.dequantize_levels(&t, Backend::Scalar).unwrap();
            let b = d.dequantize_levels(&t, Backend::Vectorized).unwrap();
            let c = d.dequantize_levels(&t, Backend::Parallel).unwrap();
            let again = d.dequantize_levels(&t, Backend::Scalar).unwrap();
            assert_eq!(a.1, levels);
            assert_eq!(a.0, headers);
            assert_eq!(a, b);
            assert_eq!(a, c);
            assert_eq!(a, again);
        }
    }
}

fn standard_normal(n: usize) -> Vec<f32> {
    let mut x: u64 = 0x2545_f491_4f6c_dd1d;
    let mut next = move || {
        x ^= x << 13;
        x ^= x >> 7;
        x ^= x << 17;
        ((x >> 40) as f32 + 0.5) / (1u64 << 24) as f32
    };
    (0..n)
        .map(|_| {
            let u1 = next();
            let u2 = next();
            (-2.0 * u1.ln()).sqrt() * (2.0 * std::f32::consts::PI * u2).cos()
        })
        .collect()
}

#[test]
fn q8_round_trip_on_normal_values() {
    let src = standard_normal(64 * 128);
    let mut headers = Vec::new();
    let mut levels = Vec::new();
    for block in src.chunks(32) {
        let amax = block.iter().fold(0f32, |m, v| m.max(v.abs()));
        let d = amax / 127.0;
        let id = if d != 0.0 { 1.0 / d } else { 0.0 };
        headers.push(half::f16::from_f32(d).to_bits());
        for v in block {
            levels.push(((v * id).round() as i8) as u8 as u32);
        }
    }
    let t = QuantizedTensor::from_levels(vec![64, 128], GgmlDType::Q8_0, &headers, &levels).unwrap();
    assert_eq!(t.data().len(), (64 * 128 / 32) * 34);
    let d = Dispatcher::new(Capabilities::none(), 1);
    let (h, l) = d.dequantize_levels(&t, Backend::Scalar).unwrap();
    let full: Vec<f32> = l
        .iter()
        .enumerate()
        .map(|(i, q)| (*q as u8 as i8) as f32 * half::f16::from_bits(h[i / 32]).to_f32())
        .collect();
    let mae: f32 = full.iter().zip(&src).map(|(a, b)| (a - b).abs()).sum::<f32>() / src.len() as f32;
    assert!(mae < 0.05, "mean absolute error {mae}");
    for v in &full {
        let r = half::f16::from_f32(*v).to_f32();
        let ulp = half::f16::from_f32(*v).to_f32().abs() * half::f16::EPSILON.to_f32() + 1e-7;
        assert!((r - v).abs() <= ulp);
    }
}

#[test]
fn short_buffer_is_a_structural_error() {
    let data = vec![0u8; 40];
    let r = candle_quant::codec::decode_buffer(GgmlDType::Q8_0, &data, 2);
    assert_eq!(r.err(), Some(QuantError::StructuralRead { needed: 68, available: 40 }));
    let r = candle_quant::codec::decode_buffer(GgmlDType::Q8_0, &data, usize::MAX);
    assert_eq!(r.err(), Some(QuantError::StructuralRead { needed: usize::MAX, available: 40 }));
    let (h, l) = candle_quant::codec::decode_buffer(GgmlDType::Q8_0, &data, 1).unwrap();
    assert_eq!(h, vec![0]);
    assert_eq!(l, vec![0; 32]);
}

#[test]
fn q4_1_levels_and_bytes() {
    let levels: Vec<u32> = (0..32u32).map(|j| 15 - (j % 16)).collect();
    let t = QuantizedTensor::from_levels(vec![32], GgmlDType::Q4_1, &vec![0x0102, 0x0304], &levels).unwrap();
    assert_eq!(&t.data()[0..5], &[0x02, 0x01, 0x04, 0x03, 0xff]);
    assert_eq!(t.data().len(), 20);
    assert_eq!(t.shape(), &vec![32]);
    assert_eq!(t.dtype(), GgmlDType::Q4_1);
    let d = Dispatcher::new(Capabilities::none(), 3);
    assert_eq!(d.num_threads(), 3);
    assert_eq!(d.capabilities(), Capabilities::none());
    let mut h = Vec::new();
    let mut l = Vec::new();
    t.decode_range(0, 1, &mut h, &mut l);
    assert_eq!(l, levels);
}
