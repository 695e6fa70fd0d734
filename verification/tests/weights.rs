//! Model files: tensors, layers and words.

use std::collections::BTreeMap;

use safetensors::tensor::{serialize, TensorView};
use safetensors::Dtype;
use traject::error::TrajectError;
use traject::inference::tokenizer::{
    encode_answer, read_special_id, read_special_token_str, HfTokenizer,
};
use traject::inference::weights::catalog::{PackedFp4Mat, SafetensorCatalog, Shard};
use traject::inference::weights::dtype::{bf16_bits_to_f32, bytes_to_f32_vec, f16_bits_to_f32};
use traject::inference::weights::expert_lru::ExpertLru;
use traject::inference::weights::hf_config::HfModelConfig;
use traject::inference::weights::layers::{
    load_embed_head_norm, load_first_f32, load_layer_attn, load_layer_routed_moe,
    load_layer_shared_ffn, load_layer_stack, load_weight_fp8_or_f32, Weight,
};
use traject::inference::weights::model::{LoadAsk, ModelWeights};
use traject::named::NamedTable;
use traject::step::F32Bits;

/// Minimal word-level tokenizer (nothing to download).
const TINY_TOKENIZER_JSON: &str = r#"{
  "version": "1.0",
  "truncation": null,
  "padding": null,
  "added_tokens": [
    {"id": 0, "content": "[UNK]", "single_word": false, "lstrip": false, "rstrip": false, "normalized": false, "special": true},
    {"id": 1, "content": "[EOS]", "single_word": false, "lstrip": false, "rstrip": false, "normalized": false, "special": true}
  ],
  "normalizer": null,
  "pre_tokenizer": {"type": "Whitespace"},
  "post_processor": null,
  "decoder": null,
  "model": {
    "type": "WordLevel",
    "vocab": {
      "[UNK]": 0,
      "[EOS]": 1,
      "hello": 2,
      "world": 3,
      "你好": 4
    },
    "unk_token": "[UNK]"
  }
}"#;

fn tiny(json: Option<&str>) -> Result<HfTokenizer, TrajectError> {
    let own = Some(r#"{"eos_token": "[EOS]", "bos_token": null}"#.to_string());
    let configs = vec![None, None, own.clone()];
    HfTokenizer::from_model_files("/m/tokenizer.json", json, &configs, &own)
}

#[test]
fn load_encode_decode_roundtrip() {
    let tok = tiny(Some(TINY_TOKENIZER_JSON)).unwrap();
    assert!(tok.vocab_size() >= 5);
    assert_eq!(tok.eos_token_id(), Some(1));
    let ids = tok.encode("hello world", false).unwrap();
    assert_eq!(ids, vec![2, 3]);
    let text = tok.decode(&ids, true).unwrap();
    assert!(text.contains("hello"), "got {text:?}");
    assert!(text.contains("world"), "got {text:?}");
}

#[test]
fn missing_file_errors() {
    let err = tiny(None).err().unwrap();
    let msg = err.message();
    assert!(msg.contains("tokenizer.json"), "{msg}");
}

#[test]
fn the_tokenizer_knows_its_words() {
    let tok = tiny(Some(TINY_TOKENIZER_JSON)).unwrap();
    assert_eq!(tok.bos_token_id(), None);
    assert_eq!(tok.path(), "/m/tokenizer.json");
    assert_eq!(tok.encode_ordinary("你好 nobody").unwrap(), vec![4, 0]);
    // Special words are left out on request.
    assert!(!tok.decode(&[2, 1], true).unwrap().contains("EOS"));
    assert!(tok.decode(&[2, 1], false).unwrap().contains("EOS"));
    let err = HfTokenizer::from_text("p", "{").err().unwrap();
    assert!(err.message().starts_with("load tokenizer p: "));
    assert_eq!(encode_answer(Ok(vec![1, 2])).unwrap(), vec![1, 2]);
    assert_eq!(
        encode_answer(Err("no".to_string())).unwrap_err().message(),
        "tokenizer encode: no"
    );
}

#[test]
fn special_ids_are_looked_up_in_order() {
    let some = |s: &str| Some(s.to_string());
    let configs = vec![some(r#"{"eos_token_id": 7}"#), some(r#"{"eos_token_id": 8}"#)];
    assert_eq!(read_special_id(&configs, "eos_token_id"), Some(7));
    let configs = vec![None, some(r#"{"eos_token_id": [9, 3]}"#)];
    assert_eq!(read_special_id(&configs, "eos_token_id"), Some(9));
    assert_eq!(read_special_id(&configs, "bos_token_id"), None);
    assert_eq!(
        read_special_token_str(&some(r#"{"eos_token": {"content": "</s>"}}"#), "eos_token"),
        Some("</s>".to_string())
    );
    assert_eq!(read_special_token_str(&None, "eos_token"), None);
}

#[test]
fn lru_evicts_oldest() {
    let mut c = ExpertLru::new(2);
    c.put(1, "one");
    c.put(2, "two");
    assert!(c.get(1).is_some());
    c.put(3, "three");
    assert!(c.get(2).is_none());
    assert!(c.get(1).is_some());
    assert!(c.get(3).is_some());
    let (hits, misses) = c.stats();
    assert_eq!(hits, 3);
    assert_eq!(misses, 1);
}

#[test]
fn lru_gives_back_what_was_put() {
    let mut c = ExpertLru::new(2);
    c.put(1, "a");
    c.put(1, "b");
    assert_eq!(c.get(1), Some(&"b"));
    c.put(2, "c");
    c.put(3, "d");
    // Looking without taking does not count.
    assert_eq!(c.peek(1), None);
    assert_eq!(c.peek(2), Some(&"c"));
    assert_eq!(c.stats(), (1, 0));
}

#[test]
fn bf16_one() {
    // 1.0 in bf16 is 0x3f80
    let v = f32::from_bits(bf16_bits_to_f32(0x3f80));
    assert!((v - 1.0).abs() < 1e-5, "v={v}");
}

#[test]
fn half_precision_widens_exactly() {
    let cases: [(u16, f32); 7] = [
        (0x3c00, 1.0),
        (0xc000, -2.0),
        (0x3800, 0.5),
        (0x0000, 0.0),
        (0x0001, 5.9604645e-8),
        (0x7bff, 65504.0),
        (0x03ff, 6.097555e-5),
    ];
    for (bits, want) in cases {
        assert_eq!(f32::from_bits(f16_bits_to_f32(bits)), want);
    }
    assert!(f32::from_bits(f16_bits_to_f32(0x7c00)).is_infinite());
    assert!(f32::from_bits(f16_bits_to_f32(0x7e00)).is_nan());
    assert_eq!(bytes_to_f32_vec(&[0x01, 0x7c, 0x01, 0xfc], "F16"), Ok(vec![0x7fc0_0000, 0xffc0_0000]));
}

#[test]
fn payloads_are_read_by_their_type() {
    let floats: Vec<u8> = [1.5f32, -2.0].iter().flat_map(|x| x.to_le_bytes()).collect();
    let want = vec![1.5f32.to_bits(), (-2.0f32).to_bits()];
    assert_eq!(bytes_to_f32_vec(&floats, "F32").unwrap(), want);
    assert_eq!(bytes_to_f32_vec(&[0x80, 0x3f], "BF16").unwrap(), vec![1.0f32.to_bits()]);
    assert_eq!(bytes_to_f32_vec(&[0x00, 0x3c], "F16").unwrap(), vec![1.0f32.to_bits()]);
    assert!(bytes_to_f32_vec(&[1, 2, 3], "F32").is_err());
    assert!(bytes_to_f32_vec(&[1], "U8").is_err());
}

fn floats(n: u32) -> Vec<u8> {
    (0..n).flat_map(|i| (i as f32).to_le_bytes()).collect()
}

/// A file of tensors of single-precision numbers 0, 1, 2, ...
fn file(tensors: &[(&str, Vec<usize>)]) -> Vec<u8> {
    let data: Vec<Vec<u8>> =
        tensors.iter().map(|(_, s)| floats(s.iter().product::<usize>() as u32)).collect();
    let mut views = BTreeMap::new();
    for ((name, shape), bytes) in tensors.iter().zip(&data) {
        views.insert(name.to_string(), TensorView::new(Dtype::F32, shape.clone(), bytes).unwrap());
    }
    serialize(&views, None).unwrap()
}

fn catalog(image: &[u8]) -> SafetensorCatalog<'_> {
    SafetensorCatalog::open(
        "/m",
        NamedTable::new(),
        vec![Shard { file: "model.safetensors".to_string(), image: Ok(image) }],
    )
}

#[test]
fn load_single_file_roundtrip() {
    // A tiny embedding of 4 x 3 numbers, and a head like it.
    let bytes = file(&[("embed.weight", vec![4, 3]), ("head.weight", vec![4, 3])]);
    let ends = load_embed_head_norm(&catalog(&bytes)).unwrap();
    assert_eq!(ends.embed.shape, vec![4, 3]);
    assert_eq!(ends.head.shape, vec![4, 3]);
    assert!((f32::from_bits(ends.embed.data[0]) - 0.0).abs() < 1e-5);
    assert!((f32::from_bits(ends.embed.data[1]) - 1.0).abs() < 1e-5);
}

#[test]
fn a_model_without_a_head_uses_its_embedding() {
    let bytes = file(&[("model.embed_tokens.weight", vec![4, 3])]);
    let ends = load_embed_head_norm(&catalog(&bytes)).unwrap();
    assert_eq!(ends.head.data, ends.embed.data);
    assert_eq!(ends.head.shape, ends.embed.shape);
    assert_eq!(ends.embed_key, "model.embed_tokens.weight");
    assert!(ends.norm.is_none());
    // Only an embedding under that name is shared.
    let alone = file(&[("embed.weight", vec![4, 3])]);
    assert!(load_embed_head_norm(&catalog(&alone)).is_err());
    let none = file(&[("other", vec![1])]);
    assert!(load_embed_head_norm(&catalog(&none)).is_err());
}

#[test]
fn tensors_are_found_by_map_or_by_scan() {
    let bytes = file(&[("a", vec![2]), ("b", vec![2, 2])]);
    let cat = catalog(&bytes);
    assert_eq!(cat.root(), "/m");
    assert!(cat.has("a") && !cat.has("c"));
    let raw = cat.load_raw("b").unwrap();
    assert_eq!(raw.dtype, "F32");
    assert_eq!(raw.shape, vec![2, 2]);
    assert_eq!(raw.data, floats(4));
    assert_eq!(cat.load_f32("a").unwrap().data, vec![0.0f32.to_bits(), 1.0f32.to_bits()]);
    assert_eq!(cat.load_f32("c").unwrap_err().message(), "tensor `c` not found in /m");

    let mut map = NamedTable::new();
    map.insert("a", "one.safetensors".to_string());
    let shards = || {
        vec![
            Shard { file: "one.safetensors".to_string(), image: Ok(&bytes[..]) },
            Shard { file: "two.safetensors".to_string(), image: Err("gone".to_string()) },
        ]
    };
    let cat = SafetensorCatalog::open("/m", map, shards());
    assert!(cat.load_f32("a").is_ok());
    let mut map = NamedTable::new();
    map.insert("a", "two.safetensors".to_string());
    let cat = SafetensorCatalog::open("/m", map, shards());
    assert_eq!(cat.load_f32("a").unwrap_err().message(), "gone");
    let listed = |file: &str| {
        let mut map = NamedTable::new();
        map.insert("z", file.to_string());
        SafetensorCatalog::open(
            "/m",
            map,
            vec![
                Shard { file: "one.safetensors".to_string(), image: Ok(&bytes[..]) },
                Shard { file: "bad.safetensors".to_string(), image: Ok(&bytes[..4]) },
            ],
        )
        .load_raw("z")
        .unwrap_err()
        .message()
    };
    assert!(listed("one.safetensors").starts_with("tensor `z`: "));
    assert!(listed("bad.safetensors").starts_with("deserialize /m/bad.safetensors: "));
    assert_eq!(
        listed("no.safetensors"),
        "open /m/no.safetensors: No such file or directory (os error 2)"
    );
}

#[test]
fn scaled_and_packed_weights_say_what_they_lack() {
    let bytes = file(&[("a.weight", vec![2]), ("b.weight", vec![2]), ("b.scale", vec![2])]);
    let cat = catalog(&bytes);
    assert_eq!(
        cat.load_fp8_block_scaled("a.weight", 128).unwrap_err().message(),
        "no scale tensor for `a.weight` (expected `a.scale`)"
    );
    assert_eq!(
        cat.load_fp8_block_scaled("b.weight", 128).unwrap_err().message(),
        "`b.weight` dtype F32, expected F8_E4M3"
    );
    assert_eq!(
        cat.load_fp4_packed("a.weight", 32).unwrap_err().message(),
        "no scale for FP4 `a.weight` (expected `a.scale`)"
    );
    assert_eq!(
        cat.load_fp4_packed("b.weight", 32).unwrap_err().message(),
        "`b.weight` dtype F32, expected I8/U8 packed FP4"
    );
    assert_eq!(
        load_layer_routed_moe(&cat, 0, None, None, 1).unwrap_err().message(),
        "layers.0.ffn.gate.weight not found"
    );
}

#[test]
fn the_first_name_that_loads_is_taken() {
    let bytes = file(&[("b", vec![1]), ("c", vec![1])]);
    let cat = catalog(&bytes);
    let names = |list: &[&str]| list.iter().map(|s| s.to_string()).collect::<Vec<String>>();
    let (name, t) = load_first_f32(&cat, &names(&["a", "b", "c"])).unwrap();
    assert_eq!((name.as_str(), t.shape), ("b", vec![1]));
    assert!(load_first_f32(&cat, &names(&["x"])).is_none());
    assert!(matches!(
        load_weight_fp8_or_f32(&cat, &names(&["a", "c"])).unwrap(),
        Weight::Dense(t) if t.shape == vec![1]
    ));
    assert_eq!(
        load_weight_fp8_or_f32(&cat, &names(&["x", "y"])).unwrap_err().message(),
        "none of [\"x\", \"y\"] found/loadable"
    );
}

fn attention() -> Vec<(&'static str, Vec<usize>)> {
    vec![
        ("layers.0.attn_norm.weight", vec![4]),
        ("layers.0.attn.wq_a.weight", vec![2, 4]),
        ("layers.0.attn.wkv.weight", vec![3, 4]),
    ]
}

#[test]
fn a_layer_with_the_least_it_needs() {
    let bytes = file(&attention());
    let w = load_layer_attn(&catalog(&bytes), 0, None, None).unwrap();
    assert_eq!(w.hidden, 4);
    assert_eq!(w.q_lora_dim(), 2);
    assert_eq!(w.kv_dim(), 3);
    assert!(!w.has_q_expand() && !w.has_o_proj());
    assert_eq!(w.q_full_dim(), None);
    assert!(w.n_heads.is_none());
}

#[test]
fn a_layer_with_expanded_queries() {
    let mut tensors = attention();
    tensors.push(("layers.0.attn.wq_b.weight", vec![6, 2]));
    let bytes = file(&tensors);
    let w = load_layer_attn(&catalog(&bytes), 0, None, None).unwrap();
    assert!(w.has_q_expand());
    assert_eq!(w.n_heads, Some(2));
    assert_eq!(w.q_full_dim(), Some(6));
}

#[test]
fn a_layer_that_does_not_fit_is_refused() {
    let bytes = file(&[]);
    assert!(load_layer_attn(&catalog(&bytes), 0, None, None)
        .unwrap_err()
        .message()
        .contains("layer-0 attn_norm not found in /m"));
    let bytes = file(&[
        ("layers.0.attn_norm.weight", vec![4]),
        ("layers.0.attn.wq_a.weight", vec![2, 5]),
        ("layers.0.attn.wkv.weight", vec![3, 4]),
    ]);
    assert!(load_layer_attn(&catalog(&bytes), 0, None, None).is_err());
    // A norm of the wrong length, too.
    let mut tensors = attention();
    tensors.push(("layers.0.attn.q_norm.weight", vec![5]));
    let bytes = file(&tensors);
    assert_eq!(
        load_layer_attn(&catalog(&bytes), 0, None, None).unwrap_err().message(),
        "q_norm len 5 != q_lora 2"
    );
    // An expansion that does not fit is left out.
    let mut tensors = attention();
    tensors.push(("layers.0.attn.wq_b.weight", vec![6, 3]));
    let bytes = file(&tensors);
    assert!(!load_layer_attn(&catalog(&bytes), 0, None, None).unwrap().has_q_expand());
}

#[test]
fn a_layer_stack_needs_every_layer() {
    let bytes = file(&attention());
    let cat = catalog(&bytes);
    let stack = load_layer_stack(&cat, 1, None, None, None, None, 4).unwrap();
    assert_eq!(stack.len(), 1);
    assert_eq!(stack[0].layer, 0);
    assert!(stack[0].ffn.is_none() && stack[0].moe.is_none());
    assert_eq!(
        load_layer_stack(&cat, 2, None, None, None, None, 4).unwrap_err().message(),
        "layer-1 attn_norm not found in /m"
    );
}

#[test]
fn a_shared_expert_is_checked() {
    let good = file(&[
        ("layers.0.ffn_norm.weight", vec![4]),
        ("layers.0.ffn.shared_experts.w1.weight", vec![8, 4]),
        ("layers.0.ffn.shared_experts.w2.weight", vec![4, 8]),
        ("layers.0.ffn.shared_experts.w3.weight", vec![8, 4]),
    ]);
    let f = load_layer_shared_ffn(&catalog(&good), 0).unwrap();
    assert_eq!((f.hidden, f.intermediate), (4, 8));
    let bad = file(&[
        ("layers.0.ffn_norm.weight", vec![4]),
        ("layers.0.ffn.shared_experts.w1.weight", vec![8, 4]),
        ("layers.0.ffn.shared_experts.w2.weight", vec![4, 7]),
        ("layers.0.ffn.shared_experts.w3.weight", vec![8, 4]),
    ]);
    assert!(load_layer_shared_ffn(&catalog(&bad), 0).is_err());
}

#[test]
fn routed_experts_need_a_gate() {
    let bytes = file(&[]);
    assert!(load_layer_routed_moe(&catalog(&bytes), 0, None, Some(F32Bits(0)), 4).is_err());
}

#[test]
fn packed_columns_hold_two_values() {
    let m = PackedFp4Mat {
        packed: vec![0; 6],
        rows: 2,
        packed_cols: 3,
        scale: vec![0; 2],
        scale_cols: 1,
        block_k: 32,
    };
    assert_eq!(m.logical_cols(), 6);
    assert!(HfModelConfig::default().num_hidden_layers.is_none());
}

fn ask(layers: usize) -> LoadAsk {
    LoadAsk { heads: 2, head_dim: 5, layers: Some(layers), layer_cap: None, expert_cache: 1 }
}

#[test]
fn a_model_is_its_ends_and_its_layers() {
    let mut tensors = attention();
    tensors.push(("embed.weight", vec![6, 4]));
    tensors.push(("head.weight", vec![6, 4]));
    tensors.push(("norm.weight", vec![4]));
    let bytes = file(&tensors);
    let m = ModelWeights::from_safetensors(&catalog(&bytes), None, ask(1)).unwrap();
    assert_eq!((m.vocab, m.hidden, m.attn_dim), (6, 4, 3));
    assert_eq!((m.embed.len(), m.head.len()), (24, 24));
    assert_eq!(m.norm.as_ref().unwrap().len(), 4);
    assert_eq!(m.source, "safetensors:/m");
    assert_eq!(m.eos_token_id, Some(1));
    assert_eq!(f32::from_bits(m.rope_theta.0), 10000.0);
    assert_eq!(m.n_layers(), 1);
    assert!(m.has_layer0_attn() && !m.has_layer0_ffn() && !m.has_layer0_moe());
    assert!(!m.has_layer0_q_expand() && !m.has_layer0_o_proj());
    let shape = m.first_shape().unwrap();
    assert_eq!((shape.has_q_expand, shape.kv_dim, shape.n_heads), (false, 3, None));

    // The second layer is not there: none is loaded.
    let config = HfModelConfig {
        vocab_size: 9,
        eos_token_id: Some(3),
        rope_theta: Some(F32Bits(500.0f32.to_bits())),
        ..HfModelConfig::default()
    };
    let m = ModelWeights::from_safetensors(&catalog(&bytes), Some(&config), ask(2)).unwrap();
    assert_eq!((m.vocab, m.attn_dim, m.n_layers()), (9, 10, 0));
    assert!(!m.has_layer0_attn() && m.first_shape().is_none());
    assert_eq!(m.eos_token_id, Some(3));
    assert_eq!(f32::from_bits(m.rope_theta.0), 500.0);
}

#[test]
fn a_model_whose_ends_do_not_fit_is_refused() {
    let load = |tensors: &[(&'static str, Vec<usize>)]| {
        let bytes = file(tensors);
        ModelWeights::from_safetensors(&catalog(&bytes), None, ask(1)).unwrap_err().message()
    };
    assert_eq!(
        load(&[("embed.weight", vec![6]), ("head.weight", vec![6])]),
        "embed shape [6] want [vocab, hidden]"
    );
    assert_eq!(
        load(&[("embed.weight", vec![6, 4]), ("head.weight", vec![6, 3])]),
        "head shape [6, 3] incompatible with embed [6, 4]"
    );
    assert!(load(&[("embed.weight", vec![6, 4])]).starts_with("no lm head tensor found in /m"));
    assert!(load(&[("other", vec![1])]).starts_with("no embedding tensor found in /m"));
}

/// The tiny tokenizer with one part in place of another.
fn altered(from: &str, to: &str) -> Result<HfTokenizer, TrajectError> {
    assert!(TINY_TOKENIZER_JSON.contains(from));
    HfTokenizer::from_text("p", &TINY_TOKENIZER_JSON.replacen(from, to, 1))
}

fn refused(from: &str, to: &str) {
    assert_eq!(
        altered(from, to).err().unwrap().message(),
        "load tokenizer p: not a tokenizer that works on every text"
    );
}

const NO_TRUNCATION: &str = r#""truncation": null"#;
const NO_DECODER: &str = r#""decoder": null"#;
const NO_NORMALIZER: &str = r#""normalizer": null"#;
const NO_PROCESSOR: &str = r#""post_processor": null"#;

fn cut_at(length: u32, stride: u32) -> String {
    format!(
        r#""truncation": {{"direction": "Right", "max_length": {length}, "strategy": "LongestFirst", "stride": {stride}}}"#
    )
}

fn dressed(single: &str) -> String {
    format!(
        r#""post_processor": {{"type": "TemplateProcessing", "single": [{single}], "pair": [{{"Sequence": {{"id": "A", "type_id": 0}}}}, {{"Sequence": {{"id": "B", "type_id": 1}}}}], "special_tokens": {{"[EOS]": {{"id": "[EOS]", "ids": [1], "tokens": ["[EOS]"]}}}}}}"#
    )
}

#[test]
fn descriptions_that_break_on_some_text_are_refused() {
    // An overlap as long as what is kept, or room for no token that is added.
    refused(NO_TRUNCATION, &cut_at(4, 4));
    // More tokens are counted than are added.
    refused(NO_TRUNCATION, &cut_at(2, 2));
    // Only the first of several decoders may ask something of its tokens.
    refused(
        NO_DECODER,
        r#""decoder": {"type": "Sequence", "decoders": [{"type": "Fuse"}, {"type": "BPEDecoder", "suffix": "</w>"}]}"#,
    );
    refused(NO_DECODER, r#""decoder": {"type": "Strip", "content": "xy", "start": 0, "stop": 1}"#);
    refused(NO_NORMALIZER, r#""normalizer": {"type": "Precompiled"}"#);
    refused(NO_NORMALIZER, r#""normalizer": {"type": {"Precompiled": null}}"#);
    refused(
        NO_NORMALIZER,
        r#""normalizer": {"type": "Precompiled", "precompiled_charsmap": "AAAA"}"#,
    );
    refused(
        NO_NORMALIZER,
        r#""normalizer": {"type": "Sequence", "normalizers": [{"type": "Prepend", "prepend": ""}]}"#,
    );
    refused(
        NO_NORMALIZER,
        r#""normalizer": {"type": "Replace", "pattern": {"Regex": "x*"}, "content": "y"}"#,
    );
    refused(r#"{"type": "Whitespace"}"#, r#"{"type": "FixedLength", "length": 0}"#);
    refused(NO_PROCESSOR, &dressed(r#"{"Sequence": {"id": "B", "type_id": 0}}"#));
    refused(NO_PROCESSOR, &dressed(r#"{"SpecialToken": {"id": "[BOS]", "type_id": 0}}"#));
    refused(NO_TRUNCATION, r#""truncation": null, "truncation": null"#);
    refused(r#""padding": null"#, r#""padding": 7"#);
}

#[test]
fn merges_match_the_prefix_of_what_continues_a_word() {
    let bpe = |prefix: &str, merge: &str| {
        format!(
            r####"{{"version": "1.0", "truncation": null, "padding": null, "added_tokens": [],
            "normalizer": null, "pre_tokenizer": null, "post_processor": null, "decoder": null,
            "model": {{"type": "BPE", "dropout": null, "unk_token": null,
            "continuing_subword_prefix": {prefix}, "end_of_word_suffix": null, "fuse_unk": false,
            "vocab": {{"a": 0, "b": 1, "ab": 2, "##b": 3}}, "merges": [{merge}]}}}}"####
        )
    };
    let plain = HfTokenizer::from_text("p", &bpe("null", r#""a b""#)).unwrap();
    assert_eq!(plain.encode("ab", false).unwrap(), vec![2]);
    assert_eq!(plain.decode(&[2], false).unwrap(), "ab");
    let paired = HfTokenizer::from_text("p", &bpe("null", r#"["a", "b"]"#)).unwrap();
    assert_eq!(paired.encode("ab", false).unwrap(), vec![2]);
    let marked = HfTokenizer::from_text("p", &bpe(r###""##""###, r###""a ##b""###)).unwrap();
    assert_eq!(marked.encode("ab", false).unwrap(), vec![2]);
    // The second part is shorter than the prefix.
    let err = HfTokenizer::from_text("p", &bpe(r###""##""###, r#""a b""#)).err().unwrap();
    assert_eq!(
        err.message(),
        "load tokenizer p: not a tokenizer that works on every text"
    );
}

#[test]
fn descriptions_in_order_are_followed() {
    let cut = altered(NO_TRUNCATION, &cut_at(2, 1)).unwrap();
    assert_eq!(cut.encode("hello world hello", false).unwrap(), vec![2, 3]);
    let lower = altered(NO_NORMALIZER, r#""normalizer": {"type": "Lowercase"}"#).unwrap();
    assert_eq!(lower.encode("HELLO", false).unwrap(), vec![2]);
    let fused = altered(NO_DECODER, r#""decoder": {"type": "Fuse"}"#).unwrap();
    assert_eq!(fused.decode(&[2, 3], true).unwrap(), "helloworld");
    let ended = altered(
        NO_PROCESSOR,
        &dressed(
            r#"{"Sequence": {"id": "A", "type_id": 0}}, {"SpecialToken": {"id": "[EOS]", "type_id": 0}}"#,
        ),
    )
    .unwrap();
    assert_eq!(ended.encode("hello", true).unwrap(), vec![2, 1]);
    assert_eq!(ended.encode("hello", false).unwrap(), vec![2]);
    assert_eq!(ended.encode_ordinary("hello").unwrap(), vec![2]);
}

#[test]
fn offsets_beyond_every_file_are_refused() {
    // Eight tensors, one after the other, that end just below the largest
    // number there is.
    let size: u64 = (1 << 61) - 1;
    let parts: Vec<String> = (0..8u64)
        .map(|i| {
            format!(
                r#""t{i}":{{"dtype":"U8","shape":[{size}],"data_offsets":[{},{}]}}"#,
                i * size,
                (i + 1) * size
            )
        })
        .collect();
    let header = format!("{{{}}}", parts.join(","));
    let mut bytes = (header.len() as u64).to_le_bytes().to_vec();
    bytes.extend_from_slice(header.as_bytes());
    let mut map = NamedTable::new();
    map.insert("t0", "big.safetensors".to_string());
    let cat = SafetensorCatalog::open(
        "/m/",
        map,
        vec![Shard { file: "big.safetensors".to_string(), image: Ok(&bytes[..]) }],
    );
    let message = cat.load_raw("t0").unwrap_err().message();
    assert!(message.starts_with("deserialize /m/big.safetensors: "), "{message}");
    assert!(!cat.has("t7"));
}

fn splitting(pattern: &str) -> String {
    format!(
        r#"{{"type": "Split", "pattern": {{"Regex": "{pattern}"}}, "behavior": "Removed", "invert": false}}"#
    )
}

const WHITESPACE: &str = r#"{"type": "Whitespace"}"#;

#[test]
fn expressions_are_plain_and_small() {
    for bad in [
        r"(?<=\\K )a",
        r"(a|b\\1)+",
        r"\\k<9223372036854775807>",
        r"(?:ab){1000}",
        r"(?:a{9}){9}(?:b{9}){9}",
        r"(a)(?(1)b|c)",
        r"(?x) a",
        r"a{1,100}",
    ] {
        refused(WHITESPACE, &splitting(bad));
    }
    refused(WHITESPACE, &splitting(&"a".repeat(1001)));
    refused(NO_DECODER, r#""decoder": {"type": "Replace", "pattern": {"Regex": "\\K"}, "content": "y"}"#);
    let split = altered(WHITESPACE, &splitting(r"\\s+")).unwrap();
    assert_eq!(split.encode("hello  world", false).unwrap(), vec![2, 3]);
    let usual = r"[^\\r\\n\\p{L}]?\\p{L}+(?i:'s|'t)?|\\p{N}{1,3}|\\s+(?!\\S)|\\s+";
    assert!(altered(WHITESPACE, &splitting(usual)).is_ok());
    let fewer = altered(
        NO_NORMALIZER,
        r#""normalizer": {"type": "Replace", "pattern": {"Regex": "l{2,}"}, "content": "ll"}"#,
    )
    .unwrap();
    assert_eq!(fewer.encode("hellllo", false).unwrap(), vec![2]);
    let gone = altered(
        NO_NORMALIZER,
        r#""normalizer": {"type": "Replace", "pattern": {"Regex": "x*"}, "content": ""}"#,
    )
    .unwrap();
    assert_eq!(gone.encode("hexxllo", false).unwrap(), vec![2]);
}

/// `bytes` in base 64.
fn in_base_64(bytes: &[u8]) -> String {
    let digits: Vec<char> = ('A'..='Z').chain('a'..='z').chain('0'..='9').chain(['+', '/']).collect();
    let mut out = String::new();
    for part in bytes.chunks(3) {
        let x = part.iter().fold(0u32, |n, b| n * 256 + *b as u32) << (8 * (3 - part.len()));
        for i in 0..4 {
            let digit = digits[(x >> (18 - 6 * i)) as usize % 64];
            out.push(if i <= part.len() { digit } else { '=' });
        }
    }
    out
}

/// A table that puts `hello` in place of `X`, if `at` is where that begins.
fn table(units: u32, at: u32) -> String {
    let mut bytes = (4 * units).to_le_bytes().to_vec();
    for p in 0..units {
        let unit: u32 = match p {
            0x58 => 0x58 | 0x100 | (1 << 10),
            0x59 => 0x8000_0000 | at,
            _ => 0,
        };
        bytes.extend_from_slice(&unit.to_le_bytes());
    }
    bytes.extend_from_slice("hello\0\u{e9}".as_bytes());
    format!(
        r#""normalizer": {{"type": "Precompiled", "precompiled_charsmap": "{}"}}"#,
        in_base_64(&bytes)
    )
}

#[test]
fn tables_of_replacements_are_followed_inside() {
    let tok = altered(NO_NORMALIZER, &table(256, 0)).unwrap();
    assert_eq!(tok.encode("X world", false).unwrap(), vec![2, 3]);
    assert!(altered(NO_NORMALIZER, &table(256, 8)).is_ok());
    // A place inside a character, one beyond the text, and units that are not there.
    refused(NO_NORMALIZER, &table(256, 7));
    refused(NO_NORMALIZER, &table(256, 9));
    refused(NO_NORMALIZER, &table(255, 0));
    refused(
        NO_NORMALIZER,
        r#""normalizer": {"type": "Precompiled", "precompiled_charsmap": "?"}"#,
    );
    // Padding of the wrong length, and none at all.
    let good = table(256, 0);
    assert!(good.ends_with("==\"}"));
    refused(NO_NORMALIZER, &good.replace("==\"}", "=\"}"));
    assert!(altered(NO_NORMALIZER, &good.replace("==\"}", "\"}")).is_ok());
    // Bits that are left over, and a text that is none.
    let at = good.len() - 5;
    let last = good[at..].chars().next().unwrap();
    let odd = char::from_u32(last as u32 + 1).unwrap();
    refused(NO_NORMALIZER, &format!("{}{odd}{}", &good[..at], &good[at + 1..]));
    let mut bytes = (4 * 256u32).to_le_bytes().to_vec();
    bytes.extend_from_slice(&[0; 1024]);
    bytes.extend_from_slice(&[b'a', 0xff]);
    refused(
        NO_NORMALIZER,
        &format!(
            r#""normalizer": {{"type": "Precompiled", "precompiled_charsmap": "{}"}}"#,
            in_base_64(&bytes)
        ),
    );
}

#[test]
fn a_cut_leaves_room_for_what_is_added() {
    let single = r#"{"SpecialToken": {"id": "[EOS]", "type_id": 0}}, {"Sequence": {"id": "A", "type_id": 0}}"#;
    let with = |length: u32, stride: u32| {
        let json = TINY_TOKENIZER_JSON
            .replacen(NO_PROCESSOR, &dressed(single), 1)
            .replacen(NO_TRUNCATION, &cut_at(length, stride), 1);
        HfTokenizer::from_text("p", &json)
    };
    assert!(with(3, 2).is_err());
    assert!(with(1, 0).is_err());
    let tok = with(3, 1).unwrap();
    assert_eq!(tok.encode("hello world hello", true).unwrap(), vec![1, 2, 3]);
    assert_eq!(tok.encode("hello world hello hello", false).unwrap(), vec![2, 3, 2]);
}

#[test]
fn a_decoder_is_given_what_it_asks_for() {
    let none = "tokenizer decode: the tokens are not as the decoder asks";
    let ends = altered(NO_DECODER, r#""decoder": {"type": "BPEDecoder", "suffix": "o"}"#).unwrap();
    assert_eq!(ends.decode(&[2, 3], true).unwrap(), "hell wrld");
    assert_eq!(ends.decode(&[], true).unwrap_err().message(), none);
    // Special words are left out on request, and unknown numbers anyway.
    assert_eq!(ends.decode(&[1, 77], true).unwrap_err().message(), none);
    assert_eq!(ends.decode(&[1, 77], false).unwrap(), "[EOS]");
    let stripped = r#"{"type": "Strip", "content": "o", "start": 0, "stop": 2}"#;
    let strip = altered(NO_DECODER, &format!(r#""decoder": {stripped}"#)).unwrap();
    assert_eq!(strip.decode(&[2, 3], true).unwrap(), "hellworld");
    assert_eq!(strip.decode(&[], true).unwrap(), "");
    let chained = format!(r#""decoder": {{"type": "Sequence", "decoders": [{stripped}, {{"type": "Fuse"}}]}}"#);
    let chain = altered(NO_DECODER, &chained).unwrap();
    assert_eq!(chain.decode(&[2, 3], true).unwrap(), "hellworld");
    // A word of nothing but what is stripped.
    let json = TINY_TOKENIZER_JSON
        .replacen(NO_DECODER, &format!(r#""decoder": {stripped}"#), 1)
        .replacen(r#""hello": 2"#, r#""o": 2, "ooo": 5"#, 1);
    let short = HfTokenizer::from_text("p", &json).unwrap();
    assert_eq!(short.decode(&[2], true).unwrap_err().message(), none);
    assert_eq!(short.decode(&[5], true).unwrap(), "o");
}

#[test]
fn the_same_is_found_each_time() {
    let tok = tiny(Some(TINY_TOKENIZER_JSON)).unwrap();
    assert_eq!(tok.encode("hello 你好", true).unwrap(), tok.encode("hello 你好", true).unwrap());
}

/// The tiny tokenizer, with a word that takes the spaces in front of it, one
/// that takes those behind it where asked, and one more.
fn with_stripping(behind: bool, word: &str) -> Result<HfTokenizer, TrajectError> {
    let flags = |l: bool, r: bool| {
        format!(r#""single_word": false, "lstrip": {l}, "rstrip": {r}, "normalized": false, "special": false"#)
    };
    let more = format!(
        r#""added_tokens": [{{"id": 5, "content": "<l>", {}}}, {{"id": 6, "content": "<r>", {}}}, {{"id": 7, "content": "{word}", {}}},"#,
        flags(true, false),
        flags(false, behind),
        flags(false, false)
    );
    tiny(Some(&TINY_TOKENIZER_JSON.replace(r#""added_tokens": ["#, &more)))
}

#[test]
fn words_take_the_spaces_beside_them() {
    let t = with_stripping(true, "<m>").unwrap();
    assert_eq!(t.encode("hello<r>   <l>world", false).unwrap(), vec![2, 6, 5, 3]);
    let t = with_stripping(false, " ").unwrap();
    assert_eq!(t.encode("hello<r> <l>world", false).unwrap(), vec![2, 6, 7, 5, 3]);
}

#[test]
fn a_space_is_no_word_where_both_sides_are_taken() {
    assert!(with_stripping(true, " ").is_err());
    assert!(with_stripping(true, " x").is_err());
}
