use edl::config::Config;
use edl::download_core::engine::{
    choose_filename, completion_step, configure_new_task, conflict_candidate, conflict_step,
    download_errors_message, effective_url, etag_changed, hook_command, plan_segments, resume_existing,
    resume_options, segment_error_line, segments_to_launch, apply_progress, Completion, ConflictStep,
    EngineEvent, ResumeError,
};
use edl::download_core::segment::Segment;
use edl::download_core::table::TaskTable;
use edl::download_core::task::{DownloadTask, TaskStatus, Timestamp};
use edl::net::http::FileMetadata;

fn task(id: &str, url: &str) -> DownloadTask {
    DownloadTask::with_identity(
        id.to_string(),
        Timestamp { secs: 0, nanos: 0 },
        url.to_string(),
        format!("/dl/{}", id),
        "/dl".to_string(),
        4,
    )
}

#[test]
fn etag_change_needs_both_tags() {
    let a = Some("\"1\"".to_string());
    let b = Some("\"2\"".to_string());
    assert!(etag_changed(&a, &b));
    assert!(!etag_changed(&a, &a.clone()));
    assert!(!etag_changed(&None, &b));
    assert!(!etag_changed(&a, &None));
}

#[test]
fn resumed_task_follows_redirect() {
    let mut t = task("t1", "http://old/x");
    t.status = TaskStatus::Error;
    t.error_message = Some("boom".to_string());
    let r = resume_existing(t, Some("http://new/x".to_string()));
    assert_eq!(r.url, "http://new/x");
    assert_eq!(r.status, TaskStatus::Downloading);
    assert!(r.error_message.is_none());
    let r2 = resume_existing(task("t2", "http://same"), None);
    assert_eq!(r2.url, "http://same");
}

#[test]
fn file_name_choice() {
    assert_eq!(choose_filename(Some("a".into()), Some("b".into())), "a");
    assert_eq!(choose_filename(None, Some("b".into())), "b");
    assert_eq!(choose_filename(None, None), "download");
    assert_eq!(effective_url("u".into(), Some("f".into())), "f");
    assert_eq!(effective_url("u".into(), None), "u");
}

#[test]
fn segment_plans() {
    let split = plan_segments(Some(100), true, 3);
    assert_eq!(split.len(), 3);
    assert_eq!(split[2].end, 100);
    let single = plan_segments(Some(100), false, 3);
    assert_eq!(single.len(), 1);
    assert_eq!(single[0].end, 100);
    let one = plan_segments(Some(100), true, 1);
    assert_eq!(one.len(), 1);
    let unknown = plan_segments(None, true, 8);
    assert_eq!(unknown.len(), 1);
    assert_eq!(unknown[0].end, u64::MAX);
}

#[test]
fn new_task_from_metadata() {
    let meta = FileMetadata {
        content_length: Some(1000),
        supports_range: true,
        filename: Some("f.bin".into()),
        etag: Some("e".into()),
        final_url: None,
    };
    let t = configure_new_task(task("n", "http://x"), &meta, 4, vec!["A: b".into()], Some("c=d".into()));
    assert_eq!(t.total_size, Some(1000));
    assert!(t.supports_range);
    assert_eq!(t.etag.as_deref(), Some("e"));
    assert_eq!(t.segments.len(), 4);
    assert_eq!(t.status, TaskStatus::Downloading);
    assert_eq!(t.extra_headers, vec!["A: b".to_string()]);
    assert_eq!(t.extra_cookie.as_deref(), Some("c=d"));
    assert_eq!(t.id, "n");
}

#[test]
fn conflict_names() {
    assert_eq!(conflict_candidate(Some("file.tar.gz"), 1), "file.tar(1).gz");
    assert_eq!(conflict_candidate(Some("README"), 2), "README(2)");
    assert_eq!(conflict_candidate(Some(".bashrc"), 3), ".bashrc(3)");
    assert_eq!(conflict_candidate(Some("a."), 4), "a(4).");
    assert_eq!(conflict_candidate(None, 5), "download(5)");
}

#[test]
fn conflict_resolution_steps() {
    assert!(matches!(conflict_step(Some("x.zip"), 0, false), ConflictStep::KeepOriginal));
    match conflict_step(Some("x.zip"), 0, true) {
        ConflictStep::Probe { n, name } => {
            assert_eq!(n, 1);
            assert_eq!(name, "x(1).zip");
        }
        other => panic!("unexpected {:?}", other),
    }
    assert!(matches!(conflict_step(Some("x.zip"), 5, false), ConflictStep::UseCandidate));
    assert!(matches!(conflict_step(Some("x.zip"), 999, true), ConflictStep::KeepOriginal));
}

#[test]
fn resume_needs_a_paused_or_failed_task() {
    let mut table = TaskTable::new();
    let mut t = task("p", "http://p");
    t.status = TaskStatus::Paused;
    t.segments = vec![Segment::new(0, 0, 5), Segment::new(1, 5, 10)];
    t.extra_headers = vec!["H: v".into()];
    table.insert(t);
    table.insert(task("q", "http://q"));
    let o = resume_options(&table, "p").unwrap();
    assert_eq!(o.url, "http://p");
    assert_eq!(o.dir.as_deref(), Some("/dl"));
    assert_eq!(o.split, 2);
    assert_eq!(o.max_connections, 4);
    assert!(o.output.is_none());
    assert_eq!(o.extra_headers, vec!["H: v".to_string()]);
    match resume_options(&table, "q") {
        Err(e @ ResumeError::NotResumable(_)) => assert_eq!(e.message(), "task q is not paused or errored"),
        other => panic!("unexpected {:?}", other.map(|o| o.url)),
    }
    match resume_options(&table, "zz") {
        Err(e @ ResumeError::NotFound(_)) => assert_eq!(e.message(), "task not found: zz"),
        other => panic!("unexpected {:?}", other.map(|o| o.url)),
    }
}

#[test]
fn only_unfinished_segments_are_launched() {
    let mut segs = vec![Segment::new(0, 0, 10), Segment::new(1, 10, 20), Segment::new(2, 20, 30)];
    segs[1].downloaded = 10;
    assert_eq!(segments_to_launch(&segs), vec![0, 2]);
    apply_progress(&mut segs, &vec![4, 10]);
    assert_eq!(segs[0].downloaded, 4);
    assert_eq!(segs[1].downloaded, 10);
    assert_eq!(segs[2].downloaded, 0);
}

#[test]
fn hooks_for_events() {
    let mut config = Config::with_download_dir(None);
    config.on_complete = Some("notify {file} {size} {id}".into());
    config.on_error = Some("echo {id}: {error} ({file})".into());
    let done = EngineEvent::TaskCompleted { task_id: "t".into(), file_path: "/f".into(), size: 42 };
    assert_eq!(hook_command(&config, &done).as_deref(), Some("notify /f 42 t"));
    let failed = EngineEvent::TaskError { task_id: "t".into(), file_path: "/f".into(), message: "bad".into() };
    assert_eq!(hook_command(&config, &failed).as_deref(), Some("echo t: bad (/f)"));
    let paused = EngineEvent::TaskPaused { task_id: "t".into(), file_path: "/f".into() };
    assert_eq!(hook_command(&config, &paused), None);
    config.on_pause = Some("echo paused {file} {id}".into());
    assert_eq!(hook_command(&config, &paused).as_deref(), Some("echo paused /f t"));
    let progress = EngineEvent::TaskProgress { task_id: "t".into(), downloaded: 1, total: None };
    assert_eq!(hook_command(&config, &progress), None);
}

#[test]
fn run_completion() {
    assert_eq!(completion_step(3, 1), Completion::Failed);
    assert_eq!(completion_step(3, 0), Completion::Merge);
    assert_eq!(completion_step(1, 0), Completion::Rename);
    assert_eq!(segment_error_line(2, "timeout"), "segment 2: timeout");
    assert_eq!(
        download_errors_message(&["segment 0: a".to_string(), "segment 3: b".to_string()]),
        "download errors:\nsegment 0: a\nsegment 3: b"
    );
}

#[test]
fn paused_task_can_be_resumed() {
    let mut table = TaskTable::new();
    let mut t = task("r", "http://r");
    t.status = TaskStatus::Downloading;
    table.insert(t);
    assert!(resume_options(&table, "r").is_err());
    assert!(table.set_status("r", TaskStatus::Paused));
    assert!(resume_options(&table, "r").is_ok());
}

#[test]
fn alternative_names_are_all_new() {
    let names: Vec<String> = (1..=12).map(|n| conflict_candidate(Some("report.pdf"), n)).collect();
    for (i, a) in names.iter().enumerate() {
        assert_ne!(a, "report.pdf");
        for b in &names[i + 1..] {
            assert_ne!(a, b);
        }
    }
}
