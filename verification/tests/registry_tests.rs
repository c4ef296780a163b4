use std::collections::hash_map::DefaultHasher;
use std::hash::{Hash, Hasher};

use lalalm::gguf::GgufMeta;
use lalalm::registry::{
    candidate_name, decode_hf_repo, delete_models, dest_failed, hash_id, hf_family, kind_of, local_models, meta_wanted,
    move_result, ms_repo_from_components, repo_from_components, ScanEntry, ORIGIN_HF, ORIGIN_LIBRARY,
};

fn entry(path: &str, canon: &str, family: &str, repo: Option<&str>, size: u64) -> ScanEntry {
    ScanEntry {
        path: path.to_string(),
        canonical: canon.to_string(),
        file_name: Some(path.rsplit('/').next().unwrap().to_string()),
        origin: ORIGIN_LIBRARY.to_string(),
        repo: repo.map(|r| r.to_string()),
        family: family.to_string(),
        metadata: Some((size, 1234)),
    }
}

#[test]
fn ids_are_default_hasher_hex() {
    let s = "/models/a/b.gguf";
    let mut h = DefaultHasher::new();
    s.hash(&mut h);
    assert_eq!(hash_id(s), format!("{:016x}", h.finish()));
    assert_eq!(hash_id(s).len(), 16);
    assert_ne!(hash_id("x"), hash_id("y"));
}

#[test]
fn kinds_by_extension() {
    assert_eq!(kind_of("A.GGUF"), Some("gguf"));
    assert_eq!(kind_of("m.safetensors"), Some("safetensors"));
    assert_eq!(kind_of("m.bin"), None);
}

#[test]
fn hf_cache_dir_names() {
    assert_eq!(decode_hf_repo("models--meta-llama--Llama-2-7b-hf"), Some("meta-llama/Llama-2-7b-hf".to_string()));
    assert_eq!(decode_hf_repo("models--a--b--c"), Some("a/b--c".to_string()));
    assert_eq!(decode_hf_repo("datasets--a--b"), None);
    assert_eq!(decode_hf_repo("models--a"), None);
    assert_eq!(decode_hf_repo("models----b"), None);
    assert_eq!(decode_hf_repo("models--a--"), None);
}

#[test]
fn repos_from_paths() {
    let v = |p: &[&str]| p.iter().map(|s| s.to_string()).collect::<Vec<_>>();
    assert_eq!(repo_from_components(&v(&["org", "model"])), Some("org/model".to_string()));
    assert_eq!(repo_from_components(&v(&["org"])), None);
    assert_eq!(repo_from_components(&v(&[])), None);
    assert_eq!(repo_from_components(&v(&["a", "b", "c"])), Some("a/b/c".to_string()));
    assert_eq!(ms_repo_from_components(&v(&["models", "qwen", "q2", "x"])), Some("qwen/q2".to_string()));
    assert_eq!(ms_repo_from_components(&v(&["qwen", "q2"])), Some("qwen/q2".to_string()));
    assert_eq!(ms_repo_from_components(&v(&["models", "qwen"])), None);
}

#[test]
fn scan_results_become_sorted_models() {
    let mut es = vec![
        entry("/l/org/m/b-Q8_0.gguf", "/c/1", "org/m", Some("org/m"), 10),
        entry("/l/org/m/a-Q4_K_M.gguf", "/c/2", "org/m", Some("org/m"), 20),
        entry("/l/dup.gguf", "/c/1", "org/m", None, 30),
        entry("/l/x/readme.md", "/c/3", "x", None, 1),
        entry("/l/a/w.safetensors", "/c/4", "a", None, 5),
    ];
    es[4].origin = ORIGIN_HF.to_string();
    let wanted = meta_wanted(&es);
    assert_eq!(wanted, vec![true, true, false, false, false]);
    let meta = GgufMeta {
        architecture: Some("llama".to_string()),
        name: None,
        size_label: None,
        quant: Some("Q5_0".to_string()),
        context_length: None,
        block_count: None,
        embedding_length: None,
        head_count: None,
        file_version: Some(3),
    };
    let metas = vec![Some(meta), None, None, None, None];
    let ms = local_models(&es, metas);
    let names: Vec<&str> = ms.iter().map(|m| m.file_name.as_str()).collect();
    assert_eq!(names, vec!["w.safetensors", "a-Q4_K_M.gguf", "b-Q8_0.gguf"]);
    assert_eq!(ms[0].name, "a");
    assert_eq!(ms[0].kind, "safetensors");
    assert_eq!(ms[0].origin, ORIGIN_HF);
    assert_eq!(ms[1].quant.as_deref(), Some("Q4_K_M"));
    assert_eq!(ms[2].quant.as_deref(), Some("Q5_0"));
    assert_eq!(ms[2].name, "m");
    assert_eq!(ms[2].id, hash_id("/l/org/m/b-Q8_0.gguf"));
    assert_eq!((ms[2].size, ms[2].modified), (10, 1234));
}

#[test]
fn meta_reads_are_capped() {
    let es: Vec<ScanEntry> = (0..405).map(|i| entry(&format!("/m/{i}.gguf"), &format!("/c/{i}"), "f", None, 1)).collect();
    let w = meta_wanted(&es);
    assert_eq!(w.iter().filter(|b| **b).count(), 400);
    assert!(w[399] && !w[400]);
}

#[test]
fn operation_results() {
    let paths = vec!["/a".to_string(), "/b".to_string()];
    let r = dest_failed(&paths);
    assert_eq!(r.len(), 2);
    assert_eq!(r[1].error.as_deref(), Some("目标目录不可创建"));
    assert!(!r[0].ok);
    let d = delete_models(&paths, vec![Ok(()), Err("busy".to_string())]);
    assert!(d[0].ok && d[0].error.is_none());
    assert_eq!((d[1].ok, d[1].error.as_deref()), (false, Some("busy")));
    let m = move_result(&paths[0], Ok("/dest/a".to_string()));
    assert_eq!((m.ok, m.to.as_deref()), (true, Some("/dest/a")));
    assert_eq!(candidate_name("model", Some("gguf"), 2), "model (2).gguf");
    assert_eq!(candidate_name("dir", None, 3), "dir (3)");
}

#[test]
fn hf_cache_family() {
    assert_eq!(hf_family("meta-llama/Llama-2-7b-hf"), "Llama-2-7b-hf");
    assert_eq!(hf_family("solo"), "solo");
}
