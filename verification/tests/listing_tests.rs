use lalalm::hub::{ModelFile, ModelFormat};
use lalalm::listing::{
    after_attempt, avatar_base, avatar_todo, is_avatar_author, AttemptStep, avatar_urls, finalize_detail, hf_repo_files, hf_search_url, hf_summary, ms_detail_summary,
    ms_encoded_repo, ms_name_query, ms_repo_files, ms_summary, ms_time_to_string, repo_name, HfModelInfo, ModelSummary,
    MsDetailInfo, MsModelInfo, RepoEntry, TimeValue,
};
use lalalm::config::Source;

fn summary(author: &str, avatar: Option<&str>) -> ModelSummary {
    ModelSummary {
        repo: format!("{author}/m"),
        author: author.to_string(),
        name: "m".to_string(),
        source: Source::HuggingFace,
        downloads: 0,
        likes: 0,
        last_modified: String::new(),
        tags: vec![],
        pipeline_tag: None,
        gguf: false,
        params: None,
        avatar: avatar.map(|s| s.to_string()),
    }
}

#[test]
fn dates_from_seconds() {
    assert_eq!(ms_time_to_string(&TimeValue::Seconds(0)), "1970-01-01");
    assert_eq!(ms_time_to_string(&TimeValue::Seconds(951_782_400)), "2000-02-29");
    assert_eq!(ms_time_to_string(&TimeValue::Seconds(1_700_000_000)), "2023-11-14");
    assert_eq!(ms_time_to_string(&TimeValue::Seconds(-86_400)), "1969-12-31");
    assert_eq!(ms_time_to_string(&TimeValue::Seconds(-1)), "1969-12-31");
    assert_eq!(ms_time_to_string(&TimeValue::Text("2024-05-01".to_string())), "2024-05-01");
    assert_eq!(ms_time_to_string(&TimeValue::Other), "");
    assert_eq!(ms_time_to_string(&TimeValue::Seconds(-62_167_219_200)), "0000-01-01");
    assert_eq!(ms_time_to_string(&TimeValue::Seconds(-62_198_755_200)), "-001-01-01");
}

#[test]
fn hf_summary_from_listing() {
    let info = HfModelInfo {
        id: Some("Qwen/Qwen2.5-7B-Instruct-GGUF".to_string()),
        tags: Some(vec![Some("GGUF".to_string()), None, Some("text".to_string())]),
        pipeline_tag: Some("text-generation".to_string()),
        downloads: Some(12),
        likes: None,
        last_modified: None,
        created_at: Some("2024-01-01".to_string()),
    };
    let s = hf_summary(&info, Source::HfMirror, Some("7B".to_string())).unwrap();
    assert_eq!(s.author, "Qwen");
    assert_eq!(s.name, "Qwen2.5-7B-Instruct-GGUF");
    assert_eq!(s.tags, vec!["GGUF".to_string(), "text".to_string()]);
    assert!(s.gguf);
    assert_eq!(s.downloads, 12);
    assert_eq!(s.likes, 0);
    assert_eq!(s.last_modified, "2024-01-01");
    assert_eq!(s.params.as_deref(), Some("7B"));
    assert_eq!(s.source, Source::HfMirror);
    let none = HfModelInfo { id: None, tags: None, pipeline_tag: None, downloads: None, likes: None, last_modified: None, created_at: None };
    assert!(hf_summary(&none, Source::HuggingFace, None).is_none());
    assert_eq!(repo_name("solo"), "solo");
}

#[test]
fn ms_summary_from_listing() {
    let info = MsModelInfo {
        path: Some("qwen".to_string()),
        name: Some("Qwen2-GGUF".to_string()),
        tags: None,
        downloads: None,
        likes: None,
        stars: Some(4),
        last_updated: TimeValue::Other,
        update_time: TimeValue::Text(String::new()),
        created_at: TimeValue::Seconds(0),
        tasks: Some(vec![Some("chat".to_string())]),
    };
    let s = ms_summary(&info, None).unwrap();
    assert_eq!(s.repo, "qwen/Qwen2-GGUF");
    assert_eq!(s.likes, 4);
    assert_eq!(s.last_modified, "1970-01-01");
    assert_eq!(s.pipeline_tag.as_deref(), Some("chat"));
    assert!(s.gguf);
    assert_eq!(s.source, Source::ModelScope);
}

#[test]
fn repository_listings_to_files() {
    let e = |k: &str, p: &str, lfs: Option<u64>, s: Option<u64>| RepoEntry {
        kind: Some(k.to_string()),
        path: Some(p.to_string()),
        lfs_size: lfs,
        size: s,
    };
    let hf = vec![
        e("file", "b.gguf", Some(10), Some(1)),
        e("directory", "d", None, None),
        e("file", "a.gguf", None, Some(10)),
        e("file", "", None, Some(99)),
        e("file", "c.json", None, None),
    ];
    let files = hf_repo_files(&hf);
    let p: Vec<(&str, u64)> = files.iter().map(|f| (f.path.as_str(), f.size)).collect();
    assert_eq!(p, vec![("a.gguf", 10), ("b.gguf", 10), ("c.json", 0)]);
    let ms = vec![e("blob", "x", None, Some(3)), e("tree", "y", None, Some(4)), e("file", "z", None, Some(5))];
    let files = ms_repo_files(&ms);
    let p: Vec<&str> = files.iter().map(|f| f.path.as_str()).collect();
    assert_eq!(p, vec!["z", "x"]);
}

#[test]
fn detail_totals_and_readme() {
    let files = vec![ModelFile::new("m-Q4_K_M.gguf".to_string(), 40), ModelFile::new("config.json".to_string(), 2)];
    let d = finalize_detail(summary("o", None), files, Some(String::new()));
    assert_eq!(d.gguf_total_size, 40);
    assert_eq!(d.all_total_size, 42);
    assert_eq!(d.format, ModelFormat::Gguf);
    assert_eq!(d.variants.len(), 1);
    assert_eq!(d.readme_md, None);
    let long = "a".repeat(600_001);
    let d = finalize_detail(summary("o", None), vec![], Some(long));
    let r = d.readme_md.unwrap();
    assert!(r.ends_with("\n\n<!-- truncated -->"));
    assert_eq!(r.len(), 600_000 + "\n\n<!-- truncated -->".len());
    let d = finalize_detail(summary("o", None), vec![], Some("hi".to_string()));
    assert_eq!(d.readme_md.as_deref(), Some("hi"));
    assert_eq!(d.format, ModelFormat::Tensor);
    assert!(d.variants.is_empty());
}

#[test]
fn ms_detail_header() {
    let files = vec![ModelFile::new("a.gguf".to_string(), 1)];
    let s = ms_detail_summary("org/name", &files, &None, None);
    assert_eq!((s.author.as_str(), s.name.as_str(), s.gguf, s.downloads), ("org", "name", true, 0));
    let info = MsDetailInfo {
        downloads: Some(5),
        likes: None,
        stars: None,
        last_updated: TimeValue::Text(String::new()),
        create_time: TimeValue::Text("t".to_string()),
        tags: Some(vec![Some("x".to_string())]),
    };
    let s = ms_detail_summary("solo", &[], &Some(info), Some("1B".to_string()));
    assert_eq!((s.author.as_str(), s.name.as_str(), s.downloads, s.likes), ("", "solo", 5, 0));
    assert_eq!(s.last_modified, "t");
    assert_eq!(s.tags, vec!["x".to_string()]);
    assert_eq!(ms_encoded_repo("my org/a b"), "my%20org/a%20b");
}

#[test]
fn search_requests() {
    assert_eq!(
        hf_search_url(Source::HuggingFace, "  qwen 7b ", "downloads", true, 30),
        "https://huggingface.co/api/models?limit=30&sort=downloads&direction=-1&search=qwen+7b&filter=gguf"
    );
    assert_eq!(
        hf_search_url(Source::HfMirror, " ", "trendingScore", false, 5),
        "https://hf-mirror.com/api/models?limit=5&sort=trendingScore&direction=-1"
    );
    assert_eq!(ms_name_query(" qwen ", true), "qwen gguf");
    assert_eq!(ms_name_query("Qwen GGUF", true), "Qwen GGUF");
    assert_eq!(ms_name_query("", true), "gguf");
    assert_eq!(ms_name_query(" q ", false), "q");
}

#[test]
fn avatar_lookups() {
    assert_eq!(avatar_base(Source::ModelScope), "https://hf-mirror.com");
    let u = avatar_urls("https://hf-mirror.com", "Qwen");
    assert_eq!(u.len(), 4);
    assert_eq!(u[0], "https://hf-mirror.com/api/organizations/Qwen/avatar");
    assert_eq!(u[3], "https://huggingface.co/api/users/Qwen/avatar");
    assert_eq!(avatar_urls("https://huggingface.co", "a").len(), 4);
    let list = vec![summary("a", None), summary("a", None), summary("b", Some("u")), summary("", None), summary("x/y", None), summary("c", None), summary("d", None)];
    let cached = vec![false, false, false, false, false, true, false];
    assert_eq!(avatar_todo(&list, &cached), vec!["a".to_string(), "d".to_string()]);
}

#[test]
fn search_attempt_steps() {
    assert_eq!(after_attempt("trendingScore", Some(3), 2), AttemptStep::Found);
    assert_eq!(after_attempt("trendingScore", Some(0), 0), AttemptStep::Nothing);
    assert_eq!(after_attempt("trendingScore", Some(4), 0), AttemptStep::Retry);
    assert_eq!(after_attempt("trendingScore", None, 0), AttemptStep::Retry);
    assert_eq!(after_attempt("downloads", None, 0), AttemptStep::Failed);
}

#[test]
fn avatar_authors() {
    assert!(is_avatar_author("Qwen"));
    assert!(!is_avatar_author(""));
    assert!(!is_avatar_author("a/b"));
}
