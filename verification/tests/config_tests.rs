use lalalm::config::{choose_lm_studio_dir, lm_studio_candidates};
use lalalm::config::{
    config_path, decode_config_bytes, default_suggestions, downloads_folder_in, effective_download_root,
    encode_path, extract_downloads_folder, known_cache_paths, serde_urlencoded, urlencode, Aria2Config,
    Config, DownloadDestination, ProxyMode, Source, ThemeMode,
};

#[test]
fn extracts_downloads_folder() {
    let sample = r#"{
  "language": "zh_CN",
  "downloadsFolder": "F:\\lm-studio-models",
  "sidebar": { "showButtonNames": false },
  "developerMode": true
}"#;
    assert_eq!(extract_downloads_folder(sample), Some("F:\\lm-studio-models".to_string()));
    assert_eq!(extract_downloads_folder(r#"{"downloadsFolder":"D:/models"}"#), Some("D:/models".to_string()));
    assert_eq!(extract_downloads_folder("{}"), None);
    assert_eq!(extract_downloads_folder(r#"{"downloadsFolder":""}"#), None);
}

#[test]
fn folder_value_with_escaped_quote_and_spaces() {
    assert_eq!(
        extract_downloads_folder("{\"downloadsFolder\" :\n \"  C:\\\\a\\\"b  \"}"),
        Some("C:\\a\\\"b".to_string())
    );
    assert_eq!(extract_downloads_folder("{\"downloadsFolder\": \"unterminated"), None);
    assert_eq!(
        extract_downloads_folder("\"downloadsFolder\" 1 \"downloadsFolder\":\"x\""),
        Some("x".to_string())
    );
}

#[test]
fn utf16_settings_decode() {
    let text = "{\"downloadsFolder\":\"E:/m\"}";
    let mut le = vec![0xFF, 0xFE];
    for u in text.encode_utf16() {
        le.extend_from_slice(&u.to_le_bytes());
    }
    assert_eq!(decode_config_bytes(&le), text);
    assert_eq!(downloads_folder_in(&le), Some("E:/m".to_string()));
    let mut be = vec![0xFE, 0xFF];
    for u in text.encode_utf16() {
        be.extend_from_slice(&u.to_be_bytes());
    }
    be.push(0x41);
    assert_eq!(decode_config_bytes(&be), text);
    assert_eq!(decode_config_bytes(b"plain"), "plain");
    assert_eq!(decode_config_bytes(&[0x66, 0xFF]), "f\u{FFFD}");
    assert_eq!(downloads_folder_in(b"[\"downloadsFolder\":\"x\"]"), None);
}

#[test]
fn path_encoding() {
    assert_eq!(encode_path("org/Model name+1.gguf"), "org/Model%20name%2B1.gguf");
    assert_eq!(encode_path("ä"), "%C3%A4");
    assert_eq!(urlencode("a b/c~"), "a+b%2Fc~");
    let q = serde_urlencoded(&[("limit", "30".to_string()), ("search", "qwen 7b".to_string())]);
    assert_eq!(q, "limit=30&search=qwen+7b");
    assert_eq!(serde_urlencoded(&[]), "");
}

#[test]
fn source_urls_and_auth() {
    assert_eq!(Source::HuggingFace.label(), "Hugging Face");
    assert_eq!(Source::HfMirror.api_base(), "https://hf-mirror.com");
    assert_eq!(
        Source::HuggingFace.file_url("org/m", "sub dir/f.gguf"),
        "https://huggingface.co/org/m/resolve/main/sub%20dir/f.gguf"
    );
    assert_eq!(
        Source::ModelScope.file_url("org/m", "f.gguf"),
        "https://modelscope.cn/models/org/m/resolve/master/f.gguf"
    );
    let mut cfg = Config::default("/home/u");
    assert_eq!(Source::HuggingFace.auth_header(&cfg), None);
    cfg.hf_token = "  abc ".to_string();
    cfg.modelscope_token = "ms".to_string();
    assert_eq!(Source::HfMirror.auth_header(&cfg), Some("Bearer abc".to_string()));
    assert_eq!(Source::ModelScope.auth_header(&cfg), Some("Bearer ms".to_string()));
}

#[test]
fn defaults() {
    let cfg = Config::default("/home/u");
    assert_eq!(cfg.source, Source::HuggingFace);
    assert_eq!(cfg.download_dir, "/home/u/.lalalm/models");
    assert!(cfg.scan_hf_cache && cfg.scan_lm_studio && cfg.scan_modelscope_cache);
    assert_eq!(cfg.suggest_queries, default_suggestions());
    assert_eq!(default_suggestions().len(), 7);
    assert_eq!(default_suggestions()[0], "llama 3 gguf");
    assert_eq!(cfg.aria2, Aria2Config::default());
    assert_eq!(cfg.aria2.min_split_size, "4M");
    assert_eq!(cfg.proxy_mode, ProxyMode::System);
    assert_eq!(cfg.theme, ThemeMode::System);
    assert_eq!(cfg.download_destination, DownloadDestination::Library);
    assert_eq!(config_path("/data"), "/data/config.json");
}

#[test]
fn download_root_follows_destination() {
    let mut cfg = Config::default("/h");
    assert_eq!(effective_download_root(&cfg, "/lms"), cfg.download_dir);
    cfg.download_destination = DownloadDestination::LmStudio;
    assert_eq!(effective_download_root(&cfg, "/lms"), "/lms");
}

#[test]
fn cache_locations() {
    let mut cfg = Config::default("/h");
    cfg.search_paths = vec!["/x".to_string()];
    let v = known_cache_paths(&cfg, "/h", "/lms");
    assert_eq!(v.len(), 7);
    assert_eq!(v[0], ("LalaLM Library".to_string(), "/h/.lalalm/models".to_string()));
    assert_eq!(v[1].1, "/h/.cache/huggingface/hub");
    assert_eq!(v[2], ("LM Studio Models".to_string(), "/lms".to_string()));
    assert_eq!(v[6], ("Custom Path".to_string(), "/x".to_string()));
}

#[test]
fn lm_studio_directory_choice() {
    let all = lm_studio_candidates("/home/u", Some("  /env/models "), Some("F:\\lm".to_string()));
    assert_eq!(all, vec!["/env/models", "F:\\lm", "/home/u/.lmstudio/models", "/home/u/.cache/lm-studio/models"]);
    assert_eq!(choose_lm_studio_dir(&all, &vec![false, true, true, true]), "F:\\lm");
    assert_eq!(choose_lm_studio_dir(&all, &vec![true, true, true, true]), "/env/models");
    // The legacy place is the answer when nothing else exists.
    assert_eq!(choose_lm_studio_dir(&all, &vec![false, false, false, false]), "/home/u/.cache/lm-studio/models");
    let plain = lm_studio_candidates("/home/u", None, None);
    assert_eq!(plain.len(), 2);
    assert_eq!(choose_lm_studio_dir(&plain, &vec![true, false]), "/home/u/.lmstudio/models");
}

#[test]
fn utf16_settings_decoding() {
    // "a", U+1F600 as a surrogate pair, a lone low surrogate, "b" (little-endian).
    let le = [0xFF, 0xFE, 0x61, 0x00, 0x3D, 0xD8, 0x00, 0xDE, 0x00, 0xDC, 0x62, 0x00];
    assert_eq!(decode_config_bytes(&le), "a\u{1F600}\u{FFFD}b");
    // A lone high surrogate before "c" (big-endian), and a trailing odd byte.
    let be = [0xFE, 0xFF, 0xD8, 0x3D, 0x00, 0x63, 0x7A];
    assert_eq!(decode_config_bytes(&be), "\u{FFFD}c");
}
