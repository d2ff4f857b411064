use lattice::engine::gguf::{Content, GgmlDType, TensorInfo, Value, ValueKind};
use lattice::engine::shard::{in_range, shard_weight_bytes};
use lattice::engine::wire::{from_halves, from_singles, halves, singles};
use lattice::engine::{
    Activation, CandleShard, Error, KvDtype, ModelFacts, ModelInventory, Payload, ShardSpec,
    ShardStats, WireDtype,
};
use lattice::table::Table;

fn table<V>(entries: Vec<(&str, V)>) -> Table<V> {
    let mut table = Table::new();
    for (name, value) in entries {
        table.insert(name.to_owned(), value);
    }
    table
}

#[test]
fn activation_rejects_a_buffer_that_does_not_match_its_shape() {
    let err = Activation::new(2, 8, WireDtype::F16, vec![0; 31]).expect_err("short buffer");
    assert!(matches!(err, Error::Shape { got: 31, want: 32, .. }));
    assert_eq!(
        err.message(),
        "activation is 31 bytes, but 2x8 F16 needs 32"
    );
}

#[test]
fn activation_accepts_the_exact_size() {
    let a = Activation::new(2, 8, WireDtype::F16, vec![0; 32]).expect("exact");
    assert_eq!(a.data.len(), 32);
}

#[test]
fn an_empty_layer_range_is_legal() {
    let spec = ShardSpec {
        model_hash: "abc".into(),
        first_layer: 12,
        last_layer: 12,
        max_context: 4096,
        kv_dtype: KvDtype::F16,
        wire_dtype: WireDtype::F16,
    };
    assert_eq!(spec.layers(), 0);
}

#[test]
fn layer_tensors_belong_to_the_shard_holding_that_layer() {
    assert!(in_range("blk.11.attn_q.weight", 11, 22));
    assert!(!in_range("blk.10.attn_q.weight", 11, 22));
    assert!(!in_range("blk.22.attn_q.weight", 11, 22));
}

#[test]
fn a_two_digit_index_is_not_confused_with_a_one_digit_one() {
    assert!(!in_range("blk.1.ffn_up.weight", 11, 22));
    assert!(in_range("blk.1.ffn_up.weight", 0, 11));
}

#[test]
fn tensors_outside_the_blocks_belong_to_no_range() {
    assert!(!in_range("token_embd.weight", 0, 22));
    assert!(!in_range("output_norm.weight", 0, 22));
}

fn llama_metadata() -> Table<Value> {
    table(vec![
        ("general.architecture", Value::String("llama".into())),
        ("llama.block_count", Value::U32(22)),
        ("llama.embedding_length", Value::U32(2048)),
        ("llama.attention.head_count", Value::U32(32)),
        ("llama.attention.head_count_kv", Value::U32(4)),
        ("llama.context_length", Value::U64(2048)),
    ])
}

#[test]
fn reads_a_grouped_query_model() {
    let facts = ModelFacts::read(&llama_metadata()).expect("well-formed");
    assert_eq!(facts.layers, 22);
    assert_eq!(facts.head_dim(), 64);
    assert_eq!(facts.kv_heads, 4);
}

#[test]
fn kv_heads_defaults_to_heads_when_the_key_is_absent() {
    let mut metadata = llama_metadata();
    metadata.remove("llama.attention.head_count_kv");
    let facts = ModelFacts::read(&metadata).expect("well-formed");
    assert_eq!(facts.kv_heads, 32);
}

#[test]
fn kv_grows_with_the_context_ceiling_not_the_current_context() {
    let facts = ModelFacts::read(&llama_metadata()).expect("well-formed");
    // 2 * 4 kv heads * 64 head dim * 2 bytes = 1024 bytes per token per layer.
    assert_eq!(facts.kv_bytes(22, 4096, KvDtype::F16), 1024 * 4096 * 22);
}

#[test]
fn a_missing_layer_count_is_an_error_not_a_default() {
    let mut metadata = llama_metadata();
    metadata.remove("llama.block_count");
    let error = ModelFacts::read(&metadata).expect_err("no layer count");
    assert_eq!(
        error,
        Error::Engine("GGUF metadata has no llama.block_count".into())
    );
}

fn content() -> Content {
    let shape = vec![32, 2];
    Content {
        metadata: table(vec![
            ("general.architecture", Value::String("llama".into())),
            ("llama.block_count", Value::U32(2)),
            ("llama.embedding_length", Value::U32(32)),
            ("llama.attention.head_count", Value::U32(1)),
            ("llama.context_length", Value::U32(128)),
        ]),
        tensor_infos: table(vec![
            (
                "blk.0.attn_q.weight",
                TensorInfo { ggml_dtype: GgmlDType::Q4_0, shape: shape.clone() },
            ),
            (
                "blk.1.attn_q.weight",
                TensorInfo { ggml_dtype: GgmlDType::F16, shape: shape.clone() },
            ),
            (
                "token_embd.weight",
                TensorInfo { ggml_dtype: GgmlDType::F32, shape },
            ),
        ]),
    }
}

fn reshape(content: &mut Content, name: &str, shape: Vec<usize>) {
    let dtype = content.tensor_infos.get(name).unwrap().ggml_dtype;
    content
        .tensor_infos
        .insert(name.to_owned(), TensorInfo { ggml_dtype: dtype, shape });
}

#[test]
fn quantized_blocks_and_tied_embeddings_are_counted() {
    let inventory = ModelInventory::read(&content()).unwrap();
    assert_eq!(inventory.layer_bytes, vec![36, 128]);
    assert_eq!(inventory.output_bytes, 256);
}

#[test]
fn split_gguf_is_refused_before_weight_accounting() {
    let mut content = content();
    content.metadata.insert("split.count".into(), Value::U16(2));
    let error = ModelInventory::read(&content).unwrap_err();
    assert!(error.message().contains("split GGUF"));
}

#[test]
fn malformed_tensor_dimensions_and_missing_layers_are_refused() {
    let mut invalid = content();
    reshape(&mut invalid, "blk.0.attn_q.weight", vec![31]);
    assert!(ModelInventory::read(&invalid).is_err());
    let mut missing = content();
    missing.tensor_infos.remove("blk.1.attn_q.weight");
    assert!(ModelInventory::read(&missing).is_err());
}

#[test]
fn a_range_outside_the_model_is_refused() {
    let facts = ModelFacts::read(&content().metadata).expect("gguf header");
    let spec = ShardSpec {
        model_hash: String::new(),
        first_layer: 0,
        last_layer: facts.layers + 1,
        max_context: 512,
        kv_dtype: KvDtype::F16,
        wire_dtype: WireDtype::F16,
    };
    assert!(CandleShard::open(&content(), spec).is_err());
}

#[test]
fn every_storage_format_has_the_size_that_the_engine_gives_it() {
    let sizes = [
        (GgmlDType::F32, 256, 1024),
        (GgmlDType::F16, 256, 512),
        (GgmlDType::BF16, 256, 512),
        (GgmlDType::Q4_0, 32, 18),
        (GgmlDType::Q4_1, 32, 20),
        (GgmlDType::Q5_0, 32, 22),
        (GgmlDType::Q5_1, 32, 24),
        (GgmlDType::Q8_0, 32, 34),
        (GgmlDType::Q8_1, 32, 36),
        (GgmlDType::Q2K, 256, 84),
        (GgmlDType::Q3K, 256, 110),
        (GgmlDType::Q4K, 256, 144),
        (GgmlDType::Q5K, 256, 176),
        (GgmlDType::Q6K, 256, 210),
        (GgmlDType::Q8K, 256, 292),
    ];
    for (dtype, values, bytes) in sizes {
        let mut content = content();
        content.tensor_infos.insert(
            "token_embd.weight".into(),
            TensorInfo { ggml_dtype: dtype, shape: vec![values] },
        );
        let inventory = ModelInventory::read(&content).unwrap();
        assert_eq!(inventory.output_bytes, bytes, "{dtype:?}");
    }
}

#[test]
fn the_order_of_the_tensors_does_not_matter() {
    let forward = content();
    let mut backward = content();
    backward.tensor_infos.entries.reverse();
    assert_eq!(
        ModelInventory::read(&forward).unwrap(),
        ModelInventory::read(&backward).unwrap()
    );
}

#[test]
fn tensor_faults_name_the_tensor() {
    for (name, shape) in [
        ("blk.0.attn_q.weight", vec![31]),
        ("blk.0.attn_q.weight", vec![0]),
        ("blk.0.attn_q.weight", vec![usize::MAX, 2]),
    ] {
        let mut bad = content();
        reshape(&mut bad, name, shape);
        assert_eq!(
            ModelInventory::read(&bad).unwrap_err().message(),
            format!("invalid tensor size or layer index: {name}")
        );
    }
    for name in ["blk.2.attn_q.weight", "blk.x.weight", "blk."] {
        let mut bad = content();
        bad.tensor_infos.insert(
            name.into(),
            TensorInfo { ggml_dtype: GgmlDType::F16, shape: vec![2] },
        );
        assert_eq!(
            ModelInventory::read(&bad).unwrap_err().message(),
            format!("invalid tensor size or layer index: {name}")
        );
    }
}

#[test]
fn other_architectures_and_layer_counts_are_refused() {
    let mut other = content();
    other
        .metadata
        .insert("general.architecture".into(), Value::String("gpt2".into()));
    for key in ["block_count", "embedding_length", "attention.head_count", "context_length"] {
        other.metadata.insert(format!("gpt2.{key}"), Value::U32(2));
    }
    let error = ModelInventory::read(&other).unwrap_err();
    assert_eq!(error, Error::UnsupportedArch("gpt2".into()));
    assert_eq!(
        error.message(),
        "model architecture \"gpt2\" is not supported; this engine reads llama-family GGUF"
    );

    for layers in [0, 4097] {
        let mut content = content();
        content.metadata.insert("llama.block_count".into(), Value::U32(layers));
        assert_eq!(
            ModelInventory::read(&content).unwrap_err().message(),
            "model must have between 1 and 4096 layers"
        );
    }
    let mut missing = content();
    missing.tensor_infos.remove("blk.1.attn_q.weight");
    assert_eq!(
        ModelInventory::read(&missing).unwrap_err().message(),
        "GGUF is missing weights for a transformer layer"
    );
    let mut single = content();
    single.metadata.insert("split.count".into(), Value::U8(1));
    assert!(ModelInventory::read(&single).is_ok());
}

#[test]
fn metadata_of_the_wrong_kind_is_named() {
    let mut wide = llama_metadata();
    wide.insert("llama.block_count".into(), Value::U64(1 << 32));
    assert_eq!(
        ModelFacts::read(&wide).unwrap_err().message(),
        "llama.block_count is 4294967296"
    );
    let mut text = llama_metadata();
    text.insert("llama.block_count".into(), Value::String("22".into()));
    assert_eq!(
        ModelFacts::read(&text).unwrap_err().message(),
        "llama.block_count is String, not an integer"
    );
    let mut signed = llama_metadata();
    signed.insert(
        "llama.block_count".into(),
        Value::Other { kind: ValueKind::I32, shown: "I32(22)".into() },
    );
    assert_eq!(
        ModelFacts::read(&signed).unwrap_err().message(),
        "llama.block_count is I32, not an integer"
    );
    let mut number = llama_metadata();
    number.insert("general.architecture".into(), Value::U16(7));
    assert_eq!(
        ModelFacts::read(&number).unwrap_err().message(),
        "not a string U16(7)"
    );
}

fn spec(first_layer: u32, last_layer: u32) -> ShardSpec {
    ShardSpec {
        model_hash: String::new(),
        first_layer,
        last_layer,
        max_context: 128,
        kv_dtype: KvDtype::F16,
        wire_dtype: WireDtype::F16,
    }
}

#[test]
fn a_shard_weighs_its_blocks_and_the_ends_it_owns() {
    // The embedding is widened to four bytes a value; the tied head reuses it as stored.
    assert_eq!(shard_weight_bytes(&content(), &spec(0, 1), 2), Some(36 + 256));
    assert_eq!(shard_weight_bytes(&content(), &spec(1, 2), 2), Some(128 + 256));
    assert_eq!(shard_weight_bytes(&content(), &spec(1, 1), 2), Some(0));
    assert_eq!(
        shard_weight_bytes(&content(), &spec(0, 2), 2),
        Some(36 + 128 + 256 + 256)
    );
    let mut untied = content();
    untied.tensor_infos.insert(
        "output.weight".into(),
        TensorInfo { ggml_dtype: GgmlDType::F16, shape: vec![10] },
    );
    untied.tensor_infos.insert(
        "output_norm.weight".into(),
        TensorInfo { ggml_dtype: GgmlDType::F32, shape: vec![3] },
    );
    assert_eq!(shard_weight_bytes(&untied, &spec(1, 2), 2), Some(128 + 20 + 12));
    let mut huge = content();
    reshape(&mut huge, "blk.0.attn_q.weight", vec![usize::MAX, 2]);
    assert_eq!(shard_weight_bytes(&huge, &spec(0, 1), 2), None);
}

#[test]
fn a_shard_takes_what_its_end_calls_for() {
    let first = CandleShard::open(&content(), spec(0, 1)).unwrap();
    let last = CandleShard::open(&content(), spec(1, 2)).unwrap();
    assert!(first.owns_embedding() && !first.owns_head());
    assert!(!last.owns_embedding() && last.owns_head());
    let tokens = Payload::Tokens(vec![1]);
    let hidden = Payload::Hidden(Activation::new(1, 1, WireDtype::F16, vec![0; 2]).unwrap());
    assert!(first.check_input(&tokens).is_ok());
    assert!(last.check_input(&hidden).is_ok());
    assert_eq!(
        first.check_input(&hidden).unwrap_err().message(),
        "shard holds layers (0, 1), but was handed hidden states"
    );
    assert_eq!(
        last.check_input(&tokens).unwrap_err().message(),
        "shard holds layers (1, 2), but was handed tokens"
    );
    assert_eq!(
        last.check_input(&Payload::Logits(vec![])).unwrap_err(),
        Error::WrongPayload { held: (1, 2), got: "logits" }
    );
}

#[test]
fn one_session_at_a_time_and_the_first_decode_is_not_timed() {
    let mut shard = CandleShard::open(&content(), spec(0, 2)).unwrap();
    assert_eq!(shard.begin_decode(7).unwrap_err(), Error::UnknownSession(7));
    assert_eq!(Error::UnknownSession(7).message(), "no such session 7");
    assert!(shard.begin_prefill(7, 0));
    assert!(!shard.begin_prefill(7, 5));
    assert!(shard.begin_decode(7).is_ok());
    shard.end_decode(1000);
    assert_eq!(shard.stats().decode_micros, 0);
    shard.end_decode(30);
    shard.end_decode(10);
    let stats = shard.stats();
    assert_eq!(stats.sessions, 1);
    assert_eq!(stats.decode_micros, 20);
    // 2 tensors * 1 kv head * 32 wide * 128 tokens * 2 layers * 2 bytes.
    assert_eq!(stats.kv_bytes, 2 * 32 * 128 * 2 * 2);
    assert!(!shard.drop_session(8));
    assert!(shard.drop_session(7));
    assert_eq!(shard.stats().sessions, 0);
    assert!(shard.begin_prefill(8, 3));
    assert_eq!(ShardStats::default().kv_bytes, 0);
}

#[test]
fn a_shard_range_error_names_both_sides() {
    let error = match CandleShard::open(&content(), spec(1, 3)) {
        Err(error) => error,
        Ok(_) => panic!("the range is outside the model"),
    };
    assert_eq!(error, Error::UnsupportedRange { asked: (1, 3), have: 2 });
    assert_eq!(
        error.message(),
        "shard was asked for layers (1, 3), but this engine holds all 2"
    );
    assert!(CandleShard::open(&content(), spec(2, 1)).is_err());
}

#[test]
fn values_survive_the_wire() {
    let packed = from_halves(1, 3, &vec![0x3c00, 0xc000, 0x7bff]).unwrap();
    assert_eq!(packed.data, vec![0x00, 0x3c, 0x00, 0xc0, 0xff, 0x7b]);
    assert_eq!(halves(&packed.data), vec![0x3c00, 0xc000, 0x7bff]);
    let bits: Vec<u32> = [1.0f32, -2.5, 3.25e7].iter().map(|v| v.to_bits()).collect();
    let packed = from_singles(3, 1, &bits).unwrap();
    assert_eq!(packed.data[..4], 1.0f32.to_le_bytes());
    assert_eq!(singles(&packed.data), bits);
    // What is left over at the end is dropped.
    assert_eq!(halves(&[1, 0, 2]), vec![1]);
    assert!(from_halves(2, 2, &vec![0; 3]).is_err());
}

#[test]
fn a_table_keeps_one_value_for_each_name() {
    let mut table = table(vec![("a", 1), ("b", 2)]);
    table.insert("a".into(), 3);
    assert_eq!(table.get("a"), Some(&3));
    assert_eq!(table.entries.len(), 2);
    assert_eq!(table.remove("a"), Some(3));
    assert_eq!(table.remove("a"), None);
    assert!(!table.contains_key("a") && table.contains_key("b"));
}
