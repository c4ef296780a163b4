use lalalm::gguf::{quant_from_file_type, quant_from_filename, quant_rank, read_meta, summarize, HeaderParse, MAGIC};

/// A minimal valid GGUF byte stream with a few metadata entries.
fn synth_gguf() -> Vec<u8> {
    let mut v = Vec::new();
    v.extend_from_slice(&MAGIC.to_le_bytes());
    v.extend_from_slice(&3u32.to_le_bytes());
    v.extend_from_slice(&2u64.to_le_bytes());
    v.extend_from_slice(&4u64.to_le_bytes());
    fn put_str(v: &mut Vec<u8>, s: &str) {
        v.extend_from_slice(&(s.len() as u64).to_le_bytes());
        v.extend_from_slice(s.as_bytes());
    }
    fn kv_str(v: &mut Vec<u8>, k: &str, s: &str) {
        put_str(v, k);
        v.extend_from_slice(&8u32.to_le_bytes());
        put_str(v, s);
    }
    fn kv_u32(v: &mut Vec<u8>, k: &str, n: u32) {
        put_str(v, k);
        v.extend_from_slice(&4u32.to_le_bytes());
        v.extend_from_slice(&n.to_le_bytes());
    }
    kv_str(&mut v, "general.architecture", "llama");
    kv_str(&mut v, "general.name", "TestModel-7B");
    kv_u32(&mut v, "llama.context_length", 32768);
    kv_u32(&mut v, "general.file_type", 15);
    v
}

#[test]
fn parse_synth_header() {
    let data = synth_gguf();
    let meta = match read_meta(&data, Some("TestModel-7B-Q4_K_M.gguf")) {
        HeaderParse::Parsed(m) => m,
        _ => panic!("should parse"),
    };
    assert_eq!(meta.architecture.as_deref(), Some("llama"));
    assert_eq!(meta.name.as_deref(), Some("TestModel-7B"));
    assert_eq!(meta.context_length, Some(32768));
    assert_eq!(meta.quant.as_deref(), Some("Q4_K_M"));
}

#[test]
fn rejects_non_gguf() {
    let data = b"garbage data not gguf at all......".to_vec();
    assert!(matches!(read_meta(&data, Some("not-gguf.bin")), HeaderParse::Invalid));
}

#[test]
fn quant_from_filenames() {
    assert_eq!(quant_from_filename("Meta-Llama-3-8B-Instruct-Q4_K_M.gguf"), Some("Q4_K_M".into()));
    assert_eq!(quant_from_filename("model-IQ4_XS.gguf"), Some("IQ4_XS".into()));
    assert_eq!(quant_from_filename("qwen2.5-q8_0.gguf"), Some("Q8_0".into()));
}

#[test]
fn truncated_header_reads_as_truncated_and_prefix_stays_stable() {
    let data = synth_gguf();
    for cut in [0usize, 3, 10, 24, 30, data.len() - 1] {
        assert!(matches!(read_meta(&data[..cut], None), HeaderParse::Truncated), "cut {cut}");
    }
    let mut longer = data.clone();
    longer.extend_from_slice(b"tensor data follows");
    match read_meta(&longer, Some("x.gguf")) {
        HeaderParse::Parsed(m) => assert_eq!(m.context_length, Some(32768)),
        _ => panic!("extra bytes after the header change nothing"),
    }
}

#[test]
fn bad_version_is_invalid() {
    let mut data = synth_gguf();
    data[4] = 9;
    assert!(matches!(read_meta(&data, None), HeaderParse::Invalid));
}

#[test]
fn file_type_and_rank() {
    assert_eq!(quant_from_file_type(15), Some("Q4_K_M"));
    assert_eq!(quant_from_file_type(7), Some("Q8_0"));
    assert_eq!(quant_from_file_type(1000), None);
    assert!(quant_rank("Q8_0") < quant_rank("Q6_K"));
    assert!(quant_rank("Q6_K") < quant_rank("Q4_K_M"));
    assert_eq!(quant_rank("q4_k_m"), quant_rank("Q4_K_M"));
    assert_eq!(quant_rank("nothing"), 500);
}

#[test]
fn longest_quant_wins_and_none_without() {
    assert_eq!(quant_from_filename("model-q4.gguf"), Some("Q4".into()));
    assert_eq!(quant_from_filename("model-Q4_K_M.gguf"), Some("Q4_K_M".into()));
    assert_eq!(quant_from_filename("README.md"), None);
    assert_eq!(quant_from_filename("model-bf16.gguf"), Some("BF16".into()));
}

#[test]
fn summary_lists_known_fields() {
    let data = synth_gguf();
    let meta = match read_meta(&data, Some("TestModel-7B-Q4_K_M.gguf")) {
        HeaderParse::Parsed(m) => m,
        _ => panic!("should parse"),
    };
    let s = summarize(&meta);
    let get = |k: &str| s.iter().find(|(a, _)| a == k).map(|(_, b)| b.clone());
    assert_eq!(get("architecture").as_deref(), Some("llama"));
    assert_eq!(get("contextLength").as_deref(), Some("32768"));
    assert_eq!(get("quant").as_deref(), Some("Q4_K_M"));
    assert_eq!(get("blocks"), None);
}

#[test]
fn file_type_labels_round_trip() {
    for t in 0u64..40 {
        if let Some(s) = quant_from_file_type(t) {
            assert_eq!(quant_from_filename(&format!("Model-{s}.gguf")), Some(s.to_string()), "{s}");
            assert!(quant_rank(s) < 500, "{s}");
        }
    }
}
