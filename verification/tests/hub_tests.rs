use lalalm::hub::{
    build_gguf_variants, build_tensor_variants, build_variants, classify_role, detect_format, pick_best_mmproj,
    sort_by_path, FileRole, ModelFile, ModelFormat,
};

fn mf(path: &str, size: u64) -> ModelFile {
    ModelFile::new(path.to_string(), size)
}

#[test]
fn builds_gguf_variants() {
    let files = vec![
        mf("README.md", 1000),
        mf("config.json", 700),
        mf("tokenizer.json", 7_000_000),
        mf("mmproj-model-f16.gguf", 400_000_000),
        mf("Model-7B-Q4_K_M.gguf", 4_400_000_000),
        mf("Model-7B-Q8_0.gguf", 8_000_000_000),
        mf("Model-7B-Q6_K-00001-of-00002.gguf", 3_000_000_000),
        mf("Model-7B-Q6_K-00002-of-00002.gguf", 3_000_000_000),
    ];
    let format = detect_format(&files, &["gguf".to_string()]);
    assert_eq!(format, ModelFormat::Gguf);
    let v = build_variants(format, &files);

    let labels: Vec<&str> = v.iter().map(|x| x.label.as_str()).collect();
    assert_eq!(labels, vec!["Q8_0", "Q6_K", "Q4_K_M"]);
    let rec = v.iter().find(|x| x.recommended).unwrap();
    assert_eq!(rec.label, "Q4_K_M");
    let q6 = v.iter().find(|x| x.label == "Q6_K").unwrap();
    assert_eq!(q6.files.len(), 2);
    assert_eq!(q6.total_size, 6_000_000_000);
    assert!(rec.companions.iter().any(|f| f.path == "mmproj-model-f16.gguf"));
    assert!(rec.companions.iter().any(|f| f.path == "config.json"));
    assert!(!rec.files.iter().any(|f| f.path.contains("mmproj")));
}

#[test]
fn builds_tensor_variants_with_mlx_dirs() {
    let files = vec![
        mf("config.json", 700),
        mf("tokenizer.json", 7_000_000),
        mf("model.safetensors", 1_000_000_000),
        mf("4bit/model.safetensors", 250_000_000),
        mf("8bit/model.safetensors", 500_000_000),
        mf("4bit/tokenizer_config.json", 100),
    ];
    let format = detect_format(&files, &["mlx".to_string()]);
    assert_eq!(format, ModelFormat::Mlx);
    let v = build_variants(format, &files);

    let labels: Vec<&str> = v.iter().map(|x| x.label.as_str()).collect();
    assert_eq!(labels, vec!["4bit", "8bit", "全量权重"]);
    assert_eq!(v[0].total_size, 250_000_000);
    assert!(v[0].recommended);
    assert!(v[0].companions.iter().any(|f| f.path == "config.json"));
}

#[test]
fn picks_single_f16_mmproj() {
    let files = vec![
        mf("config.json", 700),
        mf("mmproj-model-f32.gguf", 1_600_000_000),
        mf("mmproj-model-f16.gguf", 800_000_000),
        mf("mmproj-project-bf16.gguf", 800_000_000),
        mf("Model-Q4_K_M.gguf", 4_000_000_000),
    ];
    let v = build_variants(ModelFormat::Gguf, &files);
    let rec = v.iter().find(|x| x.recommended).unwrap();
    let mm: Vec<&ModelFile> = rec.companions.iter().filter(|c| c.role == FileRole::Mmproj).collect();
    assert_eq!(mm.len(), 1, "exactly one mmproj should be offered");
    assert!(mm[0].path.contains("f16"));
    assert_eq!(rec.total_size, 4_000_000_000);
}

#[test]
fn no_mmproj_means_no_companion() {
    let files = vec![mf("Model-f16.gguf", 4_000_000_000), mf("tokenizer.json", 7_000_000)];
    let v = build_variants(ModelFormat::Gguf, &files);
    assert!(v[0].companions.iter().all(|c| c.role != FileRole::Mmproj));
}

#[test]
fn roles_by_name() {
    assert_eq!(classify_role("sub/Config.JSON"), FileRole::Config);
    assert_eq!(classify_role("tokenizer.model"), FileRole::Tokenizer);
    assert_eq!(classify_role("x/mmproj-f16.gguf"), FileRole::Mmproj);
    assert_eq!(classify_role("configuration_qwen.json"), FileRole::Config);
    assert_eq!(classify_role("model.safetensors"), FileRole::Other);
    assert_eq!(classify_role("mmproj.bin"), FileRole::Other);
}

#[test]
fn new_file_reads_name() {
    let f = mf("dir/Model-Q5_K_M.GGUF", 5);
    assert!(f.is_gguf);
    assert_eq!(f.quant.as_deref(), Some("Q5_K_M"));
    let g = mf("model.safetensors", 5);
    assert!(!g.is_gguf);
    assert_eq!(g.quant, None);
}

#[test]
fn format_detection() {
    assert_eq!(detect_format(&[mf("a.safetensors", 1)], &["MLX".to_string()]), ModelFormat::Mlx);
    assert_eq!(detect_format(&[mf("a.safetensors", 1)], &[]), ModelFormat::Tensor);
    assert_eq!(detect_format(&[mf("a.gguf", 1)], &["mlx".to_string()]), ModelFormat::Gguf);
}

#[test]
fn mmproj_ties_prefer_smaller() {
    let c = vec![mf("mmproj-a-f16.gguf", 900), mf("mmproj-b-f16.gguf", 800), mf("mmproj-q8.gguf", 10)];
    let best = pick_best_mmproj(&c).unwrap();
    assert_eq!(best.path, "mmproj-b-f16.gguf");
    assert!(pick_best_mmproj(&[]).is_none());
}

#[test]
fn shards_normalize_into_one_group() {
    let files = vec![
        mf("q/M-Q4_K_M-00002-of-00002.gguf", 2),
        mf("q/M-Q4_K_M-00001-of-00002.gguf", 3),
    ];
    let v = build_gguf_variants(&files);
    assert_eq!(v.len(), 1);
    assert_eq!(v[0].id, "q/M-Q4_K_M.gguf");
    assert_eq!(v[0].files[0].path, "q/M-Q4_K_M-00001-of-00002.gguf");
    assert_eq!(v[0].total_size, 5);
    assert!(v[0].recommended);
}

#[test]
fn no_q4_recommends_first() {
    let files = vec![mf("M-Q8_0.gguf", 8), mf("M-Q2_K.gguf", 2)];
    let v = build_gguf_variants(&files);
    assert_eq!(v[0].label, "Q8_0");
    assert!(v[0].recommended);
    assert!(!v[1].recommended);
}

#[test]
fn tensor_repo_without_weights_gets_root_variant() {
    let files = vec![mf("README.md", 10), mf("config.json", 5)];
    let v = build_tensor_variants(&files);
    assert_eq!(v.len(), 1);
    assert_eq!(v[0].id, "root");
    assert_eq!(v[0].label, "全量权重");
    assert_eq!(v[0].total_size, 0);
    assert_eq!(v[0].companions_size, 5);
    assert!(build_tensor_variants(&[]).is_empty());
}

#[test]
fn path_sort_is_stable_by_path() {
    let v = sort_by_path(vec![mf("b", 1), mf("a", 2), mf("c", 3)]);
    let p: Vec<&str> = v.iter().map(|f| f.path.as_str()).collect();
    assert_eq!(p, vec!["a", "b", "c"]);
}

#[test]
fn prefers_f16_over_bf16_projector() {
    let c = vec![
        mf("mmproj-model-f32.gguf", 1_600_000_000),
        mf("mmproj-model-f16.gguf", 800_000_000),
        mf("mmproj-project-bf16.gguf", 800_000_000),
    ];
    assert_eq!(pick_best_mmproj(&c).map(|f| f.path), Some("mmproj-model-f16.gguf".to_string()));
    let only_bf16 = vec![mf("mmproj-f32.gguf", 10), mf("mmproj-bf16.gguf", 20)];
    assert_eq!(pick_best_mmproj(&only_bf16).map(|f| f.path), Some("mmproj-bf16.gguf".to_string()));
}
