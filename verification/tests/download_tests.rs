use lalalm::config::Config;
use lalalm::downloads::{direct_finished, direct_progress, downloader_for, record_direct, Downloader};
use lalalm::downloads::detach_engine;
use lalalm::config::Source;
use lalalm::downloads::{
    apply_updates, assign_gid, begin_retry, cancel, clear_finished, collect_updates, download_out, has_in_flight,
    history_path, mark_interrupted, new_task_id, now, orphans, parse_u64, pause, prepare_download, quick_target_dir,
    record_download, remove_task, resume, sanitize, settle_orphan, task_proxy, tray_status_text, Aria2Entry, DlStatus,
    DownloadTask, NumValue, ResumeStep,
};

fn task(id: &str, status: DlStatus, gid: Option<&str>) -> DownloadTask {
    DownloadTask {
        id: id.to_string(),
        repo: "org/m".to_string(),
        path: format!("{id}.gguf"),
        source: Source::HuggingFace,
        url: format!("https://x/{id}"),
        dir: "/lib/org/m".to_string(),
        out: format!("{id}.gguf"),
        total: 10,
        downloaded: 5,
        speed: 1,
        status,
        error: None,
        gid: gid.map(|g| g.to_string()),
        added_at: 1,
        updated_at: 1,
    }
}

#[test]
fn terminal_states() {
    assert!(DlStatus::Completed.terminal() && DlStatus::Error.terminal() && DlStatus::Cancelled.terminal());
    assert!(!DlStatus::Active.terminal() && !DlStatus::Paused.terminal() && !DlStatus::Interrupted.terminal());
}

#[test]
fn reload_interrupts_unfinished() {
    let mut v = vec![task("a", DlStatus::Active, Some("g")), task("b", DlStatus::Completed, Some("h"))];
    mark_interrupted(&mut v);
    assert_eq!(v[0].status, DlStatus::Interrupted);
    assert_eq!(v[0].gid, None);
    assert_eq!(v[0].error.as_deref(), Some("应用重启导致下载中断，可点击重试续传"));
    assert_eq!(v[1].status, DlStatus::Completed);
    assert_eq!(v[1].gid.as_deref(), Some("h"));
    mark_interrupted(&mut v);
    assert_eq!(v[0].status, DlStatus::Interrupted);
}

#[test]
fn pause_cancel_resume() {
    let mut v = vec![task("a", DlStatus::Active, Some("g1")), task("b", DlStatus::Error, None)];
    assert_eq!(pause(&mut v, "a", 7), Ok(Some("g1".to_string())));
    assert_eq!((v[0].status, v[0].updated_at), (DlStatus::Paused, 7));
    assert_eq!(pause(&mut v, "zz", 7), Err("任务不存在".to_string()));
    match resume(&mut v, "a", 8) {
        Ok(ResumeStep::Unpause(Some(g))) => assert_eq!(g, "g1"),
        _ => panic!("a paused task is unpaused"),
    }
    assert_eq!(v[0].status, DlStatus::Active);
    assert!(matches!(resume(&mut v, "b", 9), Ok(ResumeStep::Retry)));
    assert!(matches!(resume(&mut v, "a", 9), Ok(ResumeStep::Nothing)));
    assert_eq!(cancel(&mut v, "a", 10), Ok(Some("g1".to_string())));
    assert_eq!(v[0].status, DlStatus::Cancelled);
    assert!(resume(&mut v, "nope", 1).is_err());
}

#[test]
fn retry_resets_and_takes_new_gid() {
    let mut v = vec![task("a", DlStatus::Error, Some("old"))];
    v[0].error = Some("boom".to_string());
    let plan = begin_retry(&mut v, "a", 20).unwrap();
    assert_eq!(plan.old_gid.as_deref(), Some("old"));
    assert_eq!(plan.url, "https://x/a");
    assert_eq!((v[0].status, v[0].downloaded, v[0].total, v[0].speed), (DlStatus::Active, 0, 0, 0));
    assert_eq!(v[0].error, None);
    let t = assign_gid(&mut v, "a", "new".to_string()).unwrap();
    assert_eq!(t.gid.as_deref(), Some("new"));
    assert_eq!(v[0].gid.as_deref(), Some("new"));
    assert!(begin_retry(&mut v, "b", 1).is_err());
}

#[test]
fn removal_and_clearing() {
    let mut v = vec![
        task("a", DlStatus::Completed, None),
        task("b", DlStatus::Active, None),
        task("c", DlStatus::Cancelled, None),
        task("b", DlStatus::Paused, None),
    ];
    assert_eq!(clear_finished(&mut v), 2);
    assert_eq!(v.len(), 2);
    assert_eq!(clear_finished(&mut v), 0);
    remove_task(&mut v, "b");
    assert!(v.is_empty());
}

#[test]
fn target_dir_and_out_name() {
    assert_eq!(sanitize("a/b:c d.e-f_g"), "a_b_c d.e-f_g");
    assert_eq!(sanitize("模型"), "模型");
    assert_eq!(quick_target_dir("/lib", "org/Model 1"), "/lib/org/Model 1");
    assert_eq!(quick_target_dir("/lib", "solo"), "/lib/solo");
    assert_eq!(quick_target_dir("/lib", "a/b/c"), "/lib/a/b_c");
    assert_eq!(download_out("dir/sub/file.gguf"), "file.gguf");
    assert_eq!(download_out("dir/"), "dir/");
    assert_eq!(history_path("/data"), "/data/downloads.json");
}

#[test]
fn start_refuses_duplicates() {
    let mut v: Vec<DownloadTask> = vec![];
    let plan = prepare_download(&v, "/lib", Source::HuggingFace, "org/m", "q/f.gguf").unwrap();
    assert_eq!(plan.dir, "/lib/org/m");
    assert_eq!(plan.out, "f.gguf");
    assert_eq!(plan.url, "https://huggingface.co/org/m/resolve/main/q/f.gguf");
    let t = record_download(&mut v, plan, "id1".to_string(), "org/m", "q/f.gguf", Source::HuggingFace, "g".to_string(), 5);
    assert_eq!(t.status, DlStatus::Active);
    assert_eq!(v.len(), 1);
    assert!(has_in_flight(&v, &"/lib/org/m".to_string(), &"f.gguf".to_string()));
    let again = prepare_download(&v, "/lib", Source::HuggingFace, "org/m", "f.gguf");
    assert_eq!(again.err().as_deref(), Some("该文件已有进行中的下载任务"));
    v[0].status = DlStatus::Completed;
    assert!(prepare_download(&v, "/lib", Source::HuggingFace, "org/m", "f.gguf").is_ok());
}

#[test]
fn engine_restart_outcomes() {
    let mut v = vec![task("a", DlStatus::Active, Some("g")), task("b", DlStatus::Paused, None), task("c", DlStatus::Error, Some("x"))];
    let o = orphans(&v);
    assert_eq!(o.len(), 1);
    assert_eq!(o[0].id, "a");
    settle_orphan(&mut v, "a", Err("down".to_string()), 3);
    assert_eq!(v[0].status, DlStatus::Interrupted);
    assert_eq!(v[0].error.as_deref(), Some("引擎重启后恢复失败：down"));
    settle_orphan(&mut v, "a", Ok("g2".to_string()), 4);
    assert_eq!((v[0].status, v[0].gid.as_deref(), v[0].error.as_deref()), (DlStatus::Active, Some("g2"), None));
    assert_eq!(task_proxy(Source::ModelScope, Some("p".to_string())), None);
    assert_eq!(task_proxy(Source::HfMirror, Some("p".to_string())), Some("p".to_string()));
}

#[test]
fn numbers_from_engine() {
    assert_eq!(parse_u64(&NumValue::Unsigned(7)), 7);
    assert_eq!(parse_u64(&NumValue::Text("123".to_string())), 123);
    assert_eq!(parse_u64(&NumValue::Text("12x".to_string())), 0);
    assert_eq!(parse_u64(&NumValue::Text("18446744073709551616".to_string())), 0);
    assert_eq!(parse_u64(&NumValue::Other), 0);
}

fn entry(gid: &str, status: &str, total: u64, done: u64, err: &str, path: &str) -> Aria2Entry {
    Aria2Entry {
        gid: Some(gid.to_string()),
        status: Some(status.to_string()),
        total_length: NumValue::Text(total.to_string()),
        completed_length: NumValue::Unsigned(done),
        download_speed: NumValue::Other,
        error_message: Some(err.to_string()),
        first_file_path: Some(path.to_string()),
    }
}

#[test]
fn reconcile_reports() {
    let entries = vec![
        entry("g1", "active", 10, 3, "", ""),
        entry("g2", "complete", 10, 10, "", "/lib/org/m/other.gguf"),
        entry("g3", "bogus", 1, 1, "", ""),
        entry("g1", "error", 10, 4, "net", ""),
    ];
    let (ups, done) = collect_updates(&entries);
    assert_eq!(ups.len(), 3);
    assert_eq!(done, vec!["g2".to_string(), "g1".to_string()]);
    let mut v = vec![task("a", DlStatus::Active, Some("g1")), task("b", DlStatus::Active, Some("g2")), task("c", DlStatus::Active, Some("zz"))];
    let (changed, moves) = apply_updates(&mut v, &ups, 99);
    assert!(changed);
    assert_eq!((v[0].status, v[0].downloaded, v[0].error.as_deref(), v[0].updated_at), (DlStatus::Error, 4, Some("net"), 99));
    assert_eq!(v[1].status, DlStatus::Completed);
    assert_eq!(v[2].updated_at, 1);
    assert_eq!(moves, vec![("/lib/org/m/other.gguf".to_string(), "/lib/org/m/b.gguf".to_string())]);
    let (changed2, _) = apply_updates(&mut v, &ups, 100);
    assert!(!changed2);
    assert_eq!(v[0].updated_at, 99);
}

#[test]
fn tray_text_counts_running() {
    let v = vec![task("a", DlStatus::Active, None), task("b", DlStatus::Queued, None), task("c", DlStatus::Paused, None)];
    assert_eq!(tray_status_text(&v), "⬇ 2 个下载任务进行中");
    let one: Vec<DownloadTask> = vec![task("a", DlStatus::Active, None)];
    assert_eq!(tray_status_text(&one), "⬇ 1 个下载任务进行中");
    assert_eq!(tray_status_text(&vec![]), "暂无进行中的下载");
}

#[test]
fn random_ids_and_clock() {
    let a = new_task_id();
    let b = new_task_id();
    assert_eq!(a.len(), 16);
    assert!(a.chars().all(|c| c.is_ascii_hexdigit() && !c.is_ascii_uppercase()));
    assert_ne!(a, b);
    assert!(now() > 1_600_000_000);
}

#[test]
fn pause_then_resume_restores() {
    let mut v = vec![task("a", DlStatus::Active, Some("g1")), task("b", DlStatus::Active, Some("g2"))];
    assert_eq!(pause(&mut v, "b", 5), Ok(Some("g2".to_string())));
    assert_eq!(v[1].status, DlStatus::Paused);
    match resume(&mut v, "b", 9) {
        Ok(ResumeStep::Unpause(g)) => assert_eq!(g, Some("g2".to_string())),
        _ => panic!("expected unpause"),
    }
    assert_eq!(v[1].status, DlStatus::Active);
    assert_eq!(v[1].updated_at, 9);
    assert_eq!(v[1].downloaded, 5);
    assert_eq!(v[0].status, DlStatus::Active);
    assert_eq!(v[0].updated_at, 1);
}

#[test]
fn cancel_then_retry_requeues() {
    let mut v = vec![task("a", DlStatus::Active, Some("g1"))];
    assert_eq!(cancel(&mut v, "a", 5), Ok(Some("g1".to_string())));
    assert!(matches!(resume(&mut v, "a", 6), Ok(ResumeStep::Retry)));
    let plan = begin_retry(&mut v, "a", 7).unwrap();
    assert_eq!(plan.url, "https://x/a");
    assert_eq!(plan.old_gid, Some("g1".to_string()));
    assert_eq!(v[0].status, DlStatus::Active);
    assert_eq!((v[0].downloaded, v[0].total, v[0].speed, v[0].updated_at), (0, 0, 0, 7));
}

#[test]
fn sanitize_twice_is_once() {
    let once = sanitize("org/模型:v1?");
    assert_eq!(once, "org_模型_v1_");
    assert_eq!(sanitize(&once), once);
    assert_eq!(once.chars().count(), "org/模型:v1?".chars().count());
}

#[test]
fn target_dir_stays_under_root() {
    assert_eq!(quick_target_dir("/lib", "../x"), "/lib/__/x");
    assert_eq!(quick_target_dir("/lib", "./.."), "/lib/_/__");
    assert_eq!(quick_target_dir("/lib", ".."), "/lib/__");
    assert_eq!(quick_target_dir("/lib", "org/..."), "/lib/org/...");
    assert_eq!(quick_target_dir("/lib", "org/../../etc"), "/lib/org/.._.._etc");
}

#[test]
fn direct_downloads_when_engine_off() {
    let mut cfg = Config::default("/home/u");
    assert_eq!(downloader_for(&cfg), Downloader::Engine);
    cfg.aria2.enabled = false;
    assert_eq!(downloader_for(&cfg), Downloader::Direct);

    let mut v: Vec<DownloadTask> = vec![task("old", DlStatus::Completed, Some("g"))];
    let plan = prepare_download(&v, "/lib", Source::HuggingFace, "org/m", "f.gguf").unwrap();
    let t = record_direct(&mut v, plan, "d1".to_string(), "org/m", "f.gguf", Source::HuggingFace, 5);
    assert_eq!((t.status, t.gid.clone(), t.added_at), (DlStatus::Active, None, 5));
    assert_eq!(v[0].id, "d1");
    assert!(direct_progress(&mut v, "d1", 40, 100, 7, 6));
    assert_eq!((v[0].downloaded, v[0].total, v[0].speed, v[0].updated_at), (40, 100, 7, 6));
    assert!(!direct_progress(&mut v, "nope", 1, 1, 1, 6));
    direct_finished(&mut v, "d1", Ok(100), 8);
    assert_eq!((v[0].status, v[0].downloaded, v[0].total, v[0].speed), (DlStatus::Completed, 100, 100, 0));
    // A paused transfer stops and keeps its state.
    let plan = prepare_download(&v, "/lib", Source::HuggingFace, "org/m", "g.gguf").unwrap();
    record_direct(&mut v, plan, "d2".to_string(), "org/m", "g.gguf", Source::HuggingFace, 9);
    pause(&mut v, "d2", 10).unwrap();
    assert!(!direct_progress(&mut v, "d2", 5, 10, 1, 11));
    direct_finished(&mut v, "d2", Err("net".to_string()), 12);
    assert_eq!((v[0].status, v[0].updated_at), (DlStatus::Paused, 10));
    assert!(matches!(resume(&mut v, "d2", 13), Ok(ResumeStep::Unpause(None))));
}

#[test]
fn detached_task_has_no_engine_id() {
    let mut v = vec![task("a", DlStatus::Error, Some("g1"))];
    let t = detach_engine(&mut v, "a").unwrap();
    assert_eq!(t.gid, None);
    assert_eq!(v[0].gid, None);
    assert_eq!(v[0].status, DlStatus::Error);
    assert_eq!(detach_engine(&mut v, "zz").err().as_deref(), Some("任务不存在"));
}
