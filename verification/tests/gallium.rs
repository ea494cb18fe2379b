use kessel::gallium::attention::{rotary_parts, rotary_rows, AttentionConfig};
use kessel::gallium::blocks::{
    e8m0_to_f32_bits, f16_le_to_f32_bits, unpack_mxfp4, Mxfp4Element, E2M1_LUT,
};
use kessel::gallium::cache::{Kept, KvCache, LayerKind, ModelCache, TurboKvCache};
use kessel::gallium::ffn::{gated_parameters, top_experts, Activation, ExpertsConfig};
use kessel::gallium::generate::Generation;
use kessel::gallium::gguf::{parse_gguf_tolerant, GgufError, GgufHeader, GgufValue};
use kessel::gallium::kernels::{Features, KernelSet};
use kessel::gallium::layout::{
    elem_count, expert_range, ggml_dtype_from_u32, layout, plan_tensors, GgmlType,
    LayoutError, TensorKind, TensorPath, MXFP4_TYPE,
};
use kessel::gallium::linear_attn::{conv_state, DeltaNetConfig, Part};
use kessel::gallium::load::{load_gguf, LoadError};
use kessel::gallium::mask::{build_causal_mask, build_sliding_window_mask, Mask};
use kessel::gallium::metadata::{MetadataError, Wanted};
use kessel::gallium::params::Param;
use kessel::gallium::quant::{
    codebook_boundaries, lloyd_max_codebook, quantize_scalar, TurboQuantConfig, TurboQuantMode,
};

/// A mask as the numbers that are added to attention scores.
fn scores(m: &Mask) -> Vec<Vec<f32>> {
    (0..m.rows)
        .map(|i| {
            (0..m.cols)
                .map(|j| if m.is_blocked(i, j) { f32::NEG_INFINITY } else { 0.0 })
                .collect()
        })
        .collect()
}

#[test]
fn test_causal_mask_shape() {
    let mask = build_causal_mask(4, 0);
    assert_eq!((mask.rows, mask.cols), (4, 4));
}

#[test]
fn test_causal_mask_values() {
    let data = scores(&build_causal_mask(3, 0));
    // Row 0: can attend to pos 0 only
    assert_eq!(data[0][0], 0.0);
    assert!(data[0][1].is_infinite());
    // Row 2: can attend to 0,1,2
    assert_eq!(data[2][0], 0.0);
    assert_eq!(data[2][1], 0.0);
    assert_eq!(data[2][2], 0.0);
    // A single query after others sees them all.
    assert_eq!(scores(&build_causal_mask(1, 4)), vec![vec![0.0; 5]]);
}

#[test]
fn test_sliding_window_mask() {
    let data = scores(&build_sliding_window_mask(4, 0, 2));
    // Row 0 (pos 0, window=2): attend to [0]
    assert_eq!(data[0][0], 0.0);
    // Row 2 (pos 2, window=2): attend to [1, 2], not [0]
    assert!(data[2][0].is_infinite());
    assert_eq!(data[2][1], 0.0);
    assert_eq!(data[2][2], 0.0);
    // Row 3 (pos 3, window=2): attend to [2, 3], not [0, 1]
    assert!(data[3][0].is_infinite());
    assert!(data[3][1].is_infinite());
    assert_eq!(data[3][2], 0.0);
    assert_eq!(data[3][3], 0.0);
}

#[test]
fn test_kv_cache_append() {
    let mut cache = KvCache::new(1024);
    assert!(cache.is_empty() && !cache.has_current());
    assert_eq!(cache.append(3).len, 3);
    assert_eq!(cache.append(1).len, 4);
    assert_eq!(cache.len(), 4);
}

#[test]
fn a_full_cache_keeps_the_latest() {
    let mut cache = KvCache::new(5);
    cache.append(4);
    assert_eq!(cache.append(3), Kept { start: 2, len: 5 });
    assert_eq!(cache.append(7), Kept { start: 7, len: 5 });
    assert!(cache.has_current());
    cache.reset();
    assert_eq!(cache.len(), 0);
}

#[test]
fn test_turbo_kv_cache_basic() {
    let mut cache = TurboKvCache::new();
    assert!(cache.is_empty());
    // Prefill: 4 tokens
    cache.append(4);
    assert_eq!(cache.len(), 4);
    // Decode: 1 token
    cache.append(1);
    assert_eq!(cache.len(), 5);
}

#[test]
fn test_turbo_kv_cache_reset() {
    let mut cache = TurboKvCache::new();
    cache.append(3);
    assert_eq!(cache.len(), 3);

    cache.reset();
    assert!(cache.is_empty());
}

#[test]
fn shared_layers_use_their_source() {
    let m = ModelCache::new(vec![
        LayerKind::Kv,
        LayerKind::Shared { source_layer: 0 },
        LayerKind::Recurrent,
        LayerKind::TurboKv,
        LayerKind::Shared { source_layer: 3 },
        LayerKind::Shared { source_layer: 1 },
    ]);
    let kv: Vec<_> = (0..6).map(|i| m.get_kv(i)).collect();
    assert_eq!(kv, [Some(0), Some(0), None, None, None, None]);
    let turbo: Vec<_> = (0..6).map(|i| m.get_turbo_kv(i)).collect();
    assert_eq!(turbo, [None, None, None, Some(3), Some(3), None]);
    assert_eq!(m.get_recurrent(2), Some(2));
    assert_eq!(m.get_recurrent(1), None);
    assert_eq!(m.get_layer(1), (Some(0), None));
    assert_eq!(m.get_layer(2), (None, Some(2)));
    assert_eq!(m.get_layer(5), (None, None), "a source is followed once");
}

#[test]
fn test_codebook_symmetry() {
    for b in 1..=4 {
        let cb = lloyd_max_codebook(b);
        let n = cb.len();
        for i in 0..n / 2 {
            assert_eq!(cb[i] + cb[n - 1 - i], 0, "codebook b={b} not symmetric");
        }
        assert_eq!(n, 1 << b);
    }
}

#[test]
fn test_codebook_sorted() {
    for b in 1..=4 {
        let cb = lloyd_max_codebook(b);
        for w in cb.windows(2) {
            assert!(w[0] < w[1], "codebook not sorted at b={b}");
        }
    }
    assert_eq!(lloyd_max_codebook(2), [-15104, -4528, 4528, 15104]);
}

#[test]
fn values_are_rounded_to_the_nearest_level() {
    let cb = lloyd_max_codebook(2);
    let bounds = codebook_boundaries(&cb);
    assert_eq!(bounds, [-19632, 0, 19632]);
    assert!(codebook_boundaries(&[]).is_empty());
    let level = |v: i64| quantize_scalar(2 * v, &bounds);
    assert_eq!(level(-20_000), 0);
    assert_eq!(level(-4_000), 1);
    assert_eq!(level(0), 1, "a bound belongs to the level below it");
    assert_eq!(level(1), 2);
    assert_eq!(level(9_817), 3);
    assert_eq!(quantize_scalar(5, &[]), 0);
}

#[test]
fn bits_go_where_the_mode_needs_them() {
    let cfg = TurboQuantConfig {
        bit_width: 3,
        dim: 64,
        mode: TurboQuantMode::Mse,
        seed: u64::MAX,
    };
    assert!(cfg.is_supported());
    assert_eq!(cfg.mse_bits(), 3);
    assert_eq!(cfg.projection_seed(), None);
    assert_eq!(cfg.for_values().seed, 999);
    let ip = TurboQuantConfig {
        mode: TurboQuantMode::InnerProduct,
        ..cfg
    };
    assert_eq!(ip.mse_bits(), 2);
    assert_eq!(ip.projection_seed(), Some(0));
    assert!(!TurboQuantConfig { bit_width: 1, ..ip }.is_supported());
    assert!(!TurboQuantConfig { bit_width: 5, ..cfg }.is_supported());
    assert!(!TurboQuantConfig { dim: 0, ..cfg }.is_supported());
}

struct File(Vec<u8>);

impl File {
    fn new(version: u32) -> Self {
        let mut f = File(b"GGUF".to_vec());
        f.u32(version);
        f
    }
    fn u32(&mut self, n: u32) -> &mut Self {
        self.0.extend(n.to_le_bytes());
        self
    }
    fn u64(&mut self, n: u64) -> &mut Self {
        self.0.extend(n.to_le_bytes());
        self
    }
    fn text(&mut self, s: &str) -> &mut Self {
        self.u64(s.len() as u64);
        self.0.extend(s.as_bytes());
        self
    }
    fn bytes(&mut self, b: &[u8]) -> &mut Self {
        self.0.extend(b);
        self
    }
}

/// Two tensors and one entry of every type.
fn sample() -> Vec<u8> {
    let mut f = File::new(3);
    f.u64(2).u64(14);
    f.text("a").u32(0).bytes(&[200]);
    f.text("b").u32(1).bytes(&[0xff]);
    f.text("c").u32(2).bytes(&[0x34, 0x12]);
    f.text("d").u32(3).bytes(&[0xfe, 0xff]);
    f.text("e").u32(4).u32(77);
    f.text("f").u32(5).u32(0xffff_fffd);
    f.text("g").u32(6).u32(1.5f32.to_bits());
    f.text("h").u32(7).bytes(&[2]);
    f.text("i").u32(8).text("gemma\0\0");
    f.text("j").u32(9).u32(8).u64(2).text("x").text("y");
    f.text("k").u32(10).u64(1 << 40);
    f.text("l").u32(11).u64(u64::MAX);
    f.text("m").u32(12).u64(2.5f64.to_bits());
    f.text("e").u32(4).u32(78); // the later of two counts
    f.text("w").u32(2).u64(32).u64(3).u32(8).u64(0);
    f.text("moe").u32(3).u64(32).u64(4).u64(2).u32(MXFP4_TYPE).u64(4096);
    f.0
}

fn header(bytes: &[u8]) -> GgufHeader {
    parse_gguf_tolerant(bytes).unwrap()
}

#[test]
fn a_header_is_read_whole() {
    let bytes = sample();
    let h = header(&bytes);
    assert_eq!(h.end, bytes.len());
    assert_eq!(h.metadata.entries.len(), 13);
    let get = |k: &str| h.metadata.get(k).unwrap();
    assert!(matches!(get("a"), GgufValue::U8(200)));
    assert!(matches!(get("b"), GgufValue::I8(-1)));
    assert!(matches!(get("c"), GgufValue::U16(0x1234)));
    assert!(matches!(get("d"), GgufValue::I16(-2)));
    assert!(matches!(get("f"), GgufValue::I32(-3)));
    assert!(matches!(get("h"), GgufValue::Bool(true)));
    assert!(matches!(get("k"), GgufValue::U64(0x100_0000_0000)));
    assert!(matches!(get("l"), GgufValue::I64(-1)));
    assert!(matches!(get("m"), GgufValue::F64(b) if f64::from_bits(*b) == 2.5));
    assert_eq!(h.metadata.get_u32("e"), Ok(78));
    assert_eq!(h.metadata.get_u32("a"), Err(MetadataError::WrongType { wanted: Wanted::U32 }));
    assert_eq!(h.metadata.get_u32("nope"), Err(MetadataError::Missing));
    assert_eq!(h.metadata.get_u32_or("nope", 5), 5);
    assert_eq!(h.metadata.get_f32_bits("g").map(f32::from_bits), Ok(1.5));
    assert_eq!(h.metadata.get_str("i"), Ok("gemma".to_string()));
    assert_eq!(h.metadata.get_str("e"), Err(MetadataError::WrongType { wanted: Wanted::Text }));
    assert_eq!(h.metadata.get_str_array("j"), Ok(vec!["x".into(), "y".into()]));
    assert_eq!(
        h.metadata.get_str_array("i"),
        Err(MetadataError::WrongType { wanted: Wanted::Array })
    );
    assert_eq!(h.tensors[0].dims, [3, 32], "the outermost dimension comes first");
    assert_eq!((h.tensors[1].name.as_str(), h.tensors[1].offset), ("moe", 4096));
    assert_eq!(h.alignment(), 32);
    let base = h.data_offset().unwrap();
    assert_eq!(base % 32, 0);
    assert!(base >= h.end as u64 && base < h.end as u64 + 32);
}

#[test]
fn every_shorter_file_is_too_short() {
    let bytes = sample();
    for n in 0..bytes.len() {
        assert_eq!(parse_gguf_tolerant(&bytes[..n]).unwrap_err(), GgufError::Short, "{n}");
    }
    assert_eq!(GgufError::Short.message(), "failed to fill whole buffer");
}

#[test]
fn what_is_no_header_is_said_to_be_none() {
    let err = parse_gguf_tolerant(b"\x01\x02\x03\xabxxxx").unwrap_err();
    assert_eq!(err.message(), "unknown GGUF magic 0xab030201");
    let err = parse_gguf_tolerant(&File::new(4).0).unwrap_err();
    assert_eq!(err.message(), "unknown GGUF version 4");
    let mut f = File::new(2);
    f.u64(0).u64(1).text("k").u32(13);
    let err = parse_gguf_tolerant(&f.0).unwrap_err();
    assert_eq!(err.message(), "unknown GGUF value type 13");
    // The other byte order of the magic is one too.
    assert!(parse_gguf_tolerant(b"FUGG\x02\0\0\0\0\0\0\0\0\0\0\0\0\0\0\0\0\0\0\0").is_ok());
}

#[test]
fn the_first_version_counts_in_32_bits() {
    let mut f = File::new(1);
    f.u32(1).u32(1);
    f.u32(3).bytes(b"key").u32(9).u32(9).u32(1).u32(0).u32(2).bytes(&[5, 6]);
    f.u32(1).bytes(b"t").u32(1).u32(64).u32(0).u64(0);
    let h = header(&f.0);
    match h.metadata.get("key") {
        Some(GgufValue::Array(outer)) => match &outer[0] {
            GgufValue::Array(inner) => {
                assert!(matches!(inner[..], [GgufValue::U8(5), GgufValue::U8(6)]));
            }
            other => panic!("{other:?}"),
        },
        other => panic!("{other:?}"),
    }
    assert_eq!(h.tensors[0].dims, [64]);
}

#[test]
fn arrays_of_numbers_are_read_at_any_width() {
    let mut f = File::new(3);
    f.u64(0).u64(5);
    f.text("u8").u32(9).u32(0).u64(2).bytes(&[0, 255]);
    f.text("i32").u32(9).u32(5).u64(1).u32(0xffff_ffff);
    f.text("u64").u32(9).u32(10).u64(2).u64(7).u64(u64::MAX);
    f.text("bool").u32(9).u32(7).u64(2).bytes(&[0, 1]);
    f.text("f32").u32(9).u32(6).u64(1).u32(1.0f32.to_bits());
    let m = header(&f.0).metadata;
    assert_eq!(m.get_i64_array("u8"), Ok(vec![0, 255]));
    assert_eq!(m.get_i64_array("i32"), Ok(vec![-1]));
    assert_eq!(m.get_i64_array("u64"), Ok(vec![7, -1]));
    assert_eq!(m.get_i64_array("f32"), Ok(vec![0]), "what is no integer counts as zero");
    assert_eq!(m.get_bool_array("bool"), Ok(vec![false, true]));
    assert_eq!(m.get_bool_array("u8"), Ok(vec![false, true]));
    assert_eq!(m.get_bool_array("nope"), Err(MetadataError::Missing));
    assert_eq!(m.get_i64_array("nope"), Err(MetadataError::Missing));
}

#[test]
fn a_refused_value_is_told_by_its_key() {
    let mut f = File::new(3);
    f.u64(0).u64(3);
    f.text("name").u32(8).text("gemma");
    f.text("layers").u32(4).u32(12);
    f.text("sizes").u32(9).u32(0).u64(2).bytes(&[1, 2]);
    let m = header(&f.0).metadata;
    let told = |e: MetadataError, key: &str| e.message(key);
    assert_eq!(told(m.get_str("nope").unwrap_err(), "nope"), "missing metadata key: nope");
    assert_eq!(told(m.get_str("layers").unwrap_err(), "layers"), "expected string for layers");
    assert_eq!(
        told(m.get_str_array("sizes").unwrap_err(), "sizes"),
        "expected string array for sizes"
    );
    assert_eq!(told(m.get_str_array("name").unwrap_err(), "name"), "expected array for name");
    assert_eq!(told(m.get_i64_array("name").unwrap_err(), "name"), "expected array for name");
    assert_eq!(told(m.get_bool_array("name").unwrap_err(), "name"), "expected array for name");
    assert_eq!(told(m.get_u32("name").unwrap_err(), "name"), "not a u32");
    assert_eq!(told(m.get_f32_bits("name").unwrap_err(), "name"), "not a f32");
    assert_eq!(told(m.get_f32_bits("nope").unwrap_err(), "nope"), "missing metadata key: nope");
}

#[test]
fn data_is_aligned_to_what_the_file_says() {
    let mut f = File::new(3);
    f.u64(0).u64(1).text("general.alignment").u32(4).u32(100);
    let h = header(&f.0);
    assert_eq!(h.alignment(), 100);
    assert_eq!(h.end, 57);
    assert_eq!(h.data_offset(), Some(100));
}

#[test]
fn tensors_are_planned_by_type() {
    let h = header(&sample());
    assert_eq!(
        plan_tensors(&h.tensors),
        Ok(vec![
            TensorKind::Blocks { dtype: GgmlType::Q8_0, size: 3 * 34 },
            TensorKind::Mxfp4
        ])
    );
    let mut odd = h.tensors;
    odd[0].dims = vec![3, 31];
    assert_eq!(
        plan_tensors(&odd),
        Err((0, LayoutError::Ragged { elems: 93, block: 32 }))
    );
    odd[0].dims = vec![1 << 40, 1 << 40];
    assert_eq!(plan_tensors(&odd), Err((0, LayoutError::TooLarge)));
}

#[test]
fn a_file_is_loaded_as_a_whole() {
    let bytes = sample();
    let f = load_gguf(&bytes).unwrap();
    assert_eq!(f.header.end, bytes.len());
    assert_eq!(Some(f.base), f.header.data_offset());
    assert_eq!(
        f.kinds,
        [
            TensorKind::Blocks { dtype: GgmlType::Q8_0, size: 3 * 34 },
            TensorKind::Mxfp4
        ]
    );
    assert_eq!(
        load_gguf(&bytes[..9]).unwrap_err(),
        LoadError::Header { why: GgufError::Short }
    );
    let mut f = File::new(3);
    f.u64(0).u64(1).text("general.alignment").u32(4).u32(0);
    assert_eq!(load_gguf(&f.0).unwrap_err(), LoadError::Unaligned);
    let mut f = File::new(3);
    f.u64(2).u64(0);
    f.text("a").u32(1).u64(7).u32(0).u64(0);
    f.text("b").u32(1).u64(7).u32(99).u64(0);
    let err = load_gguf(&f.0).unwrap_err();
    assert_eq!(
        err,
        LoadError::Tensor { name: "b".into(), why: LayoutError::UnknownType { dtype: 99 } }
    );
    assert_eq!(err.message(), "unknown GgmlDType 99");
    assert_eq!(LoadError::Unaligned.message(), "the tensor data cannot be aligned");
}

#[test]
fn block_sizes_are_the_tensor_librarys() {
    let bytes = |dtype: u32| layout(dtype, 256);
    let size = |dtype: u32| match bytes(dtype) {
        Ok(TensorKind::Blocks { size, .. }) => size,
        other => panic!("{other:?}"),
    };
    let sizes: Vec<u64> = [0, 1, 30, 2, 3, 6, 7, 8, 9, 10, 11, 12, 13, 14, 15]
        .into_iter()
        .map(size)
        .collect();
    assert_eq!(
        sizes,
        [1024, 512, 512, 144, 160, 176, 192, 272, 288, 84, 110, 144, 176, 210, 292]
    );
    assert_eq!(layout(4, 256), Err(LayoutError::UnknownType { dtype: 4 }));
    assert_eq!(
        LayoutError::UnknownType { dtype: 4 }.message("t"),
        "unknown GgmlDType 4"
    );
    assert_eq!(
        layout(12, 255).unwrap_err().message("w"),
        "tensor w: elem count 255 not divisible by block size 256"
    );
    assert_eq!(layout(0, u64::MAX), Err(LayoutError::TooLarge));
    assert_eq!(ggml_dtype_from_u32(30), Some(GgmlType::Bf16));
    assert_eq!(ggml_dtype_from_u32(5), None);
    assert_eq!(elem_count(&[2, 3, 4]), Some(24));
    assert_eq!(elem_count(&[1 << 32, 1 << 32]), None);
    assert_eq!(expert_range(3, 64, 32, 34), Ok((204, 68)));
    assert_eq!(expert_range(1 << 60, 64, 32, 34), Err(LayoutError::TooLarge));
    assert_eq!(
        expert_range(0, 33, 32, 34),
        Err(LayoutError::Ragged { elems: 33, block: 32 })
    );
}

#[test]
fn names_of_tensors_are_dotted() {
    let root = TensorPath::root();
    assert_eq!(root.full_path("output"), "output");
    let layer = root.pp("blk").pp("0");
    assert_eq!(layer.full_path("attn_q.weight"), "blk.0.attn_q.weight");
    assert_eq!(root.full_path("x"), "x", "going down leaves the place above");
}

#[test]
fn packed_floats_unpack() {
    let mut raw = vec![0u8; 34];
    raw[0] = 130;
    raw[1] = 0x71; // low half 1, high half 7
    raw[17] = 5;
    raw[18] = 0xf8;
    let e = unpack_mxfp4(&raw, 65);
    assert_eq!(e[0], Mxfp4Element { doubled: 1, scale: 130 });
    assert_eq!(e[16], Mxfp4Element { doubled: 12, scale: 130 });
    assert_eq!(e[32], Mxfp4Element { doubled: 0, scale: 5 });
    assert_eq!(e[48], Mxfp4Element { doubled: -12, scale: 5 });
    assert_eq!(e[64], Mxfp4Element { doubled: 0, scale: 0 }, "no whole block");
    assert_eq!(E2M1_LUT[13], -6);
    let scale = |b: u8| f32::from_bits(e8m0_to_f32_bits(b));
    assert_eq!(scale(128), 1.0);
    assert_eq!(scale(130), 4.0);
    assert_eq!(scale(127), 0.5);
    assert_eq!(scale(1), 2.0 * scale(0));
    assert_eq!(scale(2), 2.0 * scale(1));
}

#[test]
fn half_precision_floats_keep_their_value() {
    let f = |bits: u16| {
        let [lo, hi] = bits.to_le_bytes();
        f32::from_bits(f16_le_to_f32_bits(lo, hi))
    };
    assert_eq!(f(0x3c00), 1.0);
    assert_eq!(f(0xc500), -5.0);
    assert_eq!(f(0x7bff), 65504.0);
    assert_eq!(f(0x0001), 2f32.powi(-24));
    assert_eq!(f(0x03ff), 1023.0 * 2f32.powi(-24));
    assert_eq!(f(0x8000).to_bits(), 0x8000_0000);
    assert_eq!(f(0x7c00), f32::INFINITY);
    assert_eq!(f(0xfc00), f32::NEG_INFINITY);
    assert!(f(0x7e01).is_nan());
    for bits in 0..0x7c00u16 {
        let (exp, mant) = (bits >> 10, bits & 0x3ff);
        let want = if exp == 0 {
            mant as f32 * 2f32.powi(-24)
        } else {
            (1024 + mant) as f32 * 2f32.powi(exp as i32 - 25)
        };
        assert_eq!(f(bits), want, "{bits:#x}");
    }
}

#[test]
fn generation_shows_the_prompt_then_each_token() {
    let mut g = Generation::new(vec![5, 6, 7], 3, vec![2]);
    assert!(!g.is_finished());
    assert_eq!(g.next_input(), (vec![5, 6, 7], 0));
    g.accept(10);
    assert_eq!(g.next_input(), (vec![10], 3));
    assert_eq!(g.tokens(), [5, 6, 7, 10]);
    assert!(!g.is_finished());
    g.accept(11);
    assert_eq!(g.next_input(), (vec![11], 4));
    g.accept(12);
    assert!(g.is_finished(), "the limit");
    assert_eq!(g.generated(), &[10, 11, 12]);
    let mut g = Generation::new(vec![1], 100, vec![9, 2]);
    g.accept(2);
    assert!(g.is_finished(), "a token that ends it");
    let mut g = Generation::new(vec![1], 0, vec![]);
    assert!(!g.is_finished(), "one token always comes");
    g.accept(4);
    assert!(g.is_finished());
}

#[test]
fn the_best_kernels_are_selected() {
    let none = Features {
        x86_64: true,
        aarch64: false,
        avx512f: false,
        avx512bw: false,
        avx2: false,
        fma: false,
    };
    let name = |f: Features| KernelSet::detect(f).name();
    assert_eq!(name(none), "baseline");
    assert_eq!(name(Features { avx2: true, ..none }), "baseline");
    let avx2 = Features { avx2: true, fma: true, ..none };
    assert_eq!(name(avx2), "avx2");
    assert_eq!(name(Features { avx512f: true, ..avx2 }), "avx2");
    assert_eq!(name(Features { avx512f: true, avx512bw: true, ..avx2 }), "avx512");
    assert_eq!(name(Features { x86_64: false, aarch64: true, ..none }), "neon");
    assert_eq!(name(Features { x86_64: false, ..avx2 }), "baseline");
    assert_eq!(KernelSet::baseline().name(), "baseline");
}

#[test]
fn tokens_go_to_the_heaviest_experts() {
    let w: Vec<u32> = [0.1f32, 0.4, 0.1, 0.3, 0.4].iter().map(|p| p.to_bits()).collect();
    assert_eq!(top_experts(&w, 2), [1, 4], "of equals the first");
    assert_eq!(top_experts(&w, 4), [1, 4, 3, 0]);
    assert_eq!(top_experts(&w, 9), [1, 4, 3, 0, 2]);
    assert!(top_experts(&w, 0).is_empty());
    assert!(top_experts(&[], 3).is_empty());
}

#[test]
fn every_value_is_rounded_to_its_nearest_level() {
    for bits in 1..=4 {
        let cb = lloyd_max_codebook(bits);
        let bounds = codebook_boundaries(&cb);
        for v in (-30_000..30_000).step_by(37) {
            let got = cb[quantize_scalar(2 * v, &bounds) as usize] as i64;
            let best = cb.iter().map(|c| (*c as i64 - v).abs()).min().unwrap();
            assert_eq!((got - v).abs(), best, "{bits} bits, {v}");
        }
    }
}

fn named(params: &[Param]) -> Vec<String> {
    params.iter().map(|p| format!("{} {:?}", p.name, p.shape)).collect()
}

#[test]
fn an_attention_layer_reads_what_its_configuration_says() {
    let uneven = AttentionConfig { num_q_heads: 5, num_kv_heads: 0, ..AttentionConfig::default() };
    assert_eq!(uneven.parameters()[1].shape, [0, 4096]);
    let plain = AttentionConfig {
        hidden_size: 10,
        num_q_heads: 4,
        num_kv_heads: 2,
        head_dim: 3,
        ..AttentionConfig::default()
    };
    assert_eq!(
        named(&plain.parameters()),
        [
            "q_proj.weight [12, 10]",
            "k_proj.weight [6, 10]",
            "v_proj.weight [6, 10]",
            "o_proj.weight [10, 12]",
        ]
    );
    let full = AttentionConfig {
        attn_bias: true,
        shared_kv: true,
        q_norm: true,
        k_norm: true,
        attn_sinks: true,
        q_output_gate: true,
        ..plain
    };
    assert_eq!(
        named(&full.parameters()),
        [
            "q_proj.weight [24, 10]",
            "q_proj.bias [24]",
            "k_proj.weight [6, 10]",
            "k_proj.bias [6]",
            "o_proj.weight [10, 12]",
            "o_proj.bias [10]",
            "q_norm.weight [3]",
            "k_norm.weight [3]",
            "sinks [4]",
        ]
    );
    assert_eq!(AttentionConfig::default().num_kv_heads, 32);
}

#[test]
fn attention_shapes_follow_the_heads() {
    let cfg = AttentionConfig {
        num_q_heads: 4,
        num_kv_heads: 2,
        head_dim: 3,
        q_output_gate: true,
        attn_sinks: true,
        ..AttentionConfig::default()
    };
    let p = cfg.pass(1, 5, 7);
    assert_eq!(p.gate, Some((1, 5, 4, 6)));
    assert_eq!(p.queries, (1, 5, 4, 3));
    assert_eq!(p.keys, (1, 5, 2, 3));
    assert_eq!(p.repeated, Some((1, 2, 2, 7, 3)));
    assert_eq!(p.all_keys, (1, 4, 7, 3));
    assert_eq!(p.sinks, Some((1, 4, 5, 1)));
    assert_eq!(p.out, (1, 5, 12));
    let even = AttentionConfig::default().pass(2, 1, 9);
    assert_eq!((even.gate, even.repeated, even.sinks), (None, None, None));
    assert_eq!(even.all_keys, (2, 32, 9, 128));
    assert_eq!(rotary_rows(3, 4, 7), Some((3, 4)));
    assert_eq!(rotary_rows(3, 5, 7), None);
    assert_eq!(rotary_rows(usize::MAX, 5, 7), None);
    assert_eq!(rotary_parts(16, 64), Some((16, 48)));
    assert_eq!(rotary_parts(64, 64), None);
}

#[test]
fn a_linear_attention_layer_is_cut_up() {
    let cfg = DeltaNetConfig {
        hidden_size: 9,
        num_k_heads: 2,
        num_v_heads: 4,
        key_head_dim: 3,
        value_head_dim: 5,
        conv_kernel_dim: 4,
    };
    let p = cfg.pass(1);
    assert_eq!(p.queries, Part { start: 0, len: 6 });
    assert_eq!(p.keys, Part { start: 6, len: 6 });
    assert_eq!(p.values, Part { start: 12, len: 20 });
    assert_eq!((p.repeat, p.conv_dim, p.value_dim), (Some(2), 32, 20));
    assert_eq!(p.state, (1, 4, 3, 5));
    assert_eq!(
        named(&cfg.parameters()),
        [
            "in_proj_qkv.weight [32, 9]",
            "in_proj_z.weight [20, 9]",
            "in_proj_b.weight [4, 9]",
            "in_proj_a.weight [4, 9]",
            "out_proj.weight [9, 20]",
            "conv1d.weight [32, 1, 4]",
            "A_log [4]",
            "dt_bias [4]",
            "norm.weight [5]",
        ]
    );
    let same = DeltaNetConfig { num_v_heads: 2, ..cfg };
    assert_eq!(same.pass(1).repeat, None);
    assert_eq!(conv_state(10, 4), Part { start: 7, len: 3 });
}

#[test]
fn chunks_convolve_like_the_whole() {
    // Sums over three steps, carried from chunk to chunk.
    let run = |chunks: &[&[i32]]| {
        let mut kept = vec![0, 0];
        let mut out = Vec::new();
        for chunk in chunks {
            let padded: Vec<i32> = kept.iter().chain(chunk.iter()).copied().collect();
            out.extend((0..chunk.len()).map(|t| padded[t..t + 3].iter().sum::<i32>()));
            let p = conv_state(padded.len(), 3);
            kept = padded[p.start..p.start + p.len].to_vec();
        }
        out
    };
    assert_eq!(run(&[&[1, 2, 3, 4, 5]]), [1, 3, 6, 9, 12]);
    assert_eq!(run(&[&[1], &[2, 3, 4], &[], &[5]]), run(&[&[1, 2, 3, 4, 5]]));
}

#[test]
fn feed_forward_layers_are_named() {
    assert_eq!(
        named(&gated_parameters(8, 16)),
        [
            "gate_proj.weight [16, 8]",
            "up_proj.weight [16, 8]",
            "down_proj.weight [8, 16]",
        ]
    );
    let moe = ExpertsConfig {
        hidden_size: 8,
        intermediate_size: 16,
        num_experts: 11,
        shared_expert_intermediate: Some(4),
    };
    let names = named(&moe.parameters());
    assert_eq!(names.len(), 11 * 3 + 3 + 1);
    assert_eq!(names[0], "experts.0.gate_proj.weight [16, 8]");
    assert_eq!(names[32], "experts.10.down_proj.weight [8, 16]");
    assert_eq!(names[34], "shared_expert.up_proj.weight [4, 8]");
    assert_eq!(names[36], "gate.weight [11, 8]");
    assert_eq!(Activation::from_name("gelu_pytorch_tanh"), Some(Activation::GeluTanh));
    assert_eq!(Activation::from_name("silu"), Some(Activation::Silu));
    assert_eq!(Activation::from_name("SiLU"), None);
}
