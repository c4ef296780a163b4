use lalalm::commands::{
    batch_outcome, cache_path_infos, config_changes, is_http_url, log_tail, normalize_config, note_search, record_search,
    scanned_for, search_limit,
};
use lalalm::config::{Config, DownloadDestination, ProxyMode};

#[test]
fn lm_studio_destination_turns_on_scanning() {
    let mut c = Config::default("/h");
    c.scan_lm_studio = false;
    let same = normalize_config(c.clone());
    assert!(!same.scan_lm_studio);
    c.download_destination = DownloadDestination::LmStudio;
    assert!(normalize_config(c).scan_lm_studio);
}

#[test]
fn what_a_settings_change_affects() {
    let a = Config::default("/h");
    let mut b = a.clone();
    assert_eq!(config_changes(&a, &b), (false, false));
    b.aria2.split = 16;
    assert_eq!(config_changes(&a, &b), (true, false));
    let mut c = a.clone();
    c.proxy_mode = ProxyMode::Direct;
    assert_eq!(config_changes(&a, &c), (true, true));
    let mut d = a.clone();
    d.theme = lalalm::config::ThemeMode::Dark;
    assert_eq!(config_changes(&a, &d), (false, false));
}

#[test]
fn recent_searches() {
    let mut r: Vec<String> = (0..8).map(|i| format!("q{i}")).collect();
    record_search(&mut r, &"q3".to_string());
    assert_eq!(r[0], "q3");
    assert_eq!(r.len(), 8);
    assert_eq!(r.iter().filter(|s| *s == "q3").count(), 1);
    record_search(&mut r, &"new".to_string());
    assert_eq!(r.len(), 8);
    assert_eq!(r[0], "new");
    assert_eq!(r[1], "q3");
    assert!(!r.contains(&"q7".to_string()));
    let mut e: Vec<String> = vec![];
    record_search(&mut e, &"x".to_string());
    assert_eq!(e, vec!["x".to_string()]);
}

#[test]
fn limits_and_links() {
    assert_eq!(search_limit(None), 30);
    assert_eq!(search_limit(Some(70)), 50);
    assert_eq!(search_limit(Some(5)), 5);
    assert!(is_http_url("https://huggingface.co/x"));
    assert!(!is_http_url("file:///etc/passwd"));
}

#[test]
fn cache_places_flags() {
    let mut cfg = Config::default("/h");
    cfg.scan_hf_cache = false;
    assert!(!scanned_for(&"Hugging Face Cache".to_string(), &cfg));
    assert!(scanned_for(&"Custom Path".to_string(), &cfg));
    assert!(!scanned_for(&"llama.cpp (custom)".to_string(), &cfg));
    let infos = cache_path_infos(
        vec![("LalaLM Library".to_string(), "/a".to_string()), ("ModelScope Cache".to_string(), "/b".to_string())],
        &vec![true, false],
        &cfg,
    );
    assert_eq!((infos[0].scanned, infos[0].exists), (true, true));
    assert_eq!((infos[1].scanned, infos[1].exists, infos[1].path.as_str()), (true, false, "/b"));
}

#[test]
fn batch_results() {
    let p = |v: &[&str]| v.iter().map(|s| s.to_string()).collect::<Vec<_>>();
    assert_eq!(batch_outcome(&p(&[]), &vec![]), Err("没有可下载的文件".to_string()));
    assert_eq!(batch_outcome(&p(&["a", "b"]), &vec![Ok(()), Err("x".to_string())]), Ok(1));
    assert_eq!(
        batch_outcome(&p(&["a", "b"]), &vec![Err("该文件已有进行中的下载任务".to_string()), Err("net".to_string())]),
        Err("b: net".to_string())
    );
    assert_eq!(
        batch_outcome(&p(&["a"]), &vec![Err("该文件已有进行中的下载任务".to_string())]),
        Err("下载失败".to_string())
    );
}

#[test]
fn log_tails() {
    assert_eq!(log_tail("a\nb\nc\n", Some(2)), "-- 共 3 行，显示最后 2 行 --\nb\nc");
    assert_eq!(log_tail("a\r\nb", Some(0)), "-- 共 2 行，显示最后 1 行 --\nb");
    assert_eq!(log_tail("", None), "-- 共 0 行，显示最后 0 行 --\n");
    assert_eq!(log_tail("x", None), "-- 共 1 行，显示最后 1 行 --\nx");
}

#[test]
fn search_noted_only_when_found() {
    let mut recent = vec!["a".to_string(), "b".to_string()];
    note_search(&mut recent, &"b".to_string(), 0);
    assert_eq!(recent, vec!["a", "b"]);
    note_search(&mut recent, &"".to_string(), 5);
    assert_eq!(recent, vec!["a", "b"]);
    note_search(&mut recent, &"b".to_string(), 3);
    assert_eq!(recent, vec!["b", "a"]);
}
