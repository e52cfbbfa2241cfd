use edl::download_core::table::{StatusClass, TaskTable};
use edl::download_core::task::{DownloadTask, TaskStatus, Timestamp};
use edl::download_core::segment::Segment;

fn task(id: &str, status: TaskStatus) -> DownloadTask {
    let mut t = DownloadTask::with_identity(
        id.to_string(),
        Timestamp { secs: 1, nanos: 2 },
        format!("http://h/{}", id),
        format!("/d/{}", id),
        "/d".to_string(),
        8,
    );
    t.status = status;
    t
}

#[test]
fn read_after_insert_and_remove() {
    let mut table = TaskTable::new();
    assert_eq!(table.len(), 0);
    table.insert(task("a", TaskStatus::Pending));
    table.insert(task("b", TaskStatus::Downloading));
    assert_eq!(table.get("a").unwrap().url, "http://h/a");
    let mut replaced = task("a", TaskStatus::Paused);
    replaced.url = "http://other".to_string();
    table.insert(replaced);
    assert_eq!(table.len(), 2);
    assert_eq!(table.get("a").unwrap().url, "http://other");
    let removed = table.remove("a").unwrap();
    assert_eq!(removed.status, TaskStatus::Paused);
    assert!(table.get("a").is_none());
    assert!(table.remove("a").is_none());
    assert_eq!(table.len(), 1);
}

#[test]
fn status_classes_and_stats() {
    let mut table = TaskTable::new();
    table.insert(task("1", TaskStatus::Downloading));
    table.insert(task("2", TaskStatus::Pending));
    table.insert(task("3", TaskStatus::Completed));
    table.insert(task("4", TaskStatus::Error));
    table.insert(task("5", TaskStatus::Paused));
    table.insert(task("6", TaskStatus::Downloading));
    let active: Vec<String> = table.list_class(StatusClass::Active).into_iter().map(|t| t.id).collect();
    assert_eq!(active, vec!["1".to_string(), "6".to_string()]);
    assert_eq!(table.list_class(StatusClass::Waiting).len(), 1);
    assert_eq!(table.list_class(StatusClass::Stopped).len(), 2);
    assert_eq!(table.list_class(StatusClass::Inactive).len(), 3);
    let stats = table.global_stats(777);
    assert_eq!((stats.active, stats.waiting, stats.stopped, stats.speed_limit), (2, 1, 3, 777));
    assert_eq!(table.list().len(), 6);
}

#[test]
fn updates_in_place() {
    let mut table = TaskTable::new();
    table.insert(task("x", TaskStatus::Downloading));
    assert!(table.set_status("x", TaskStatus::Completed));
    assert_eq!(table.get("x").unwrap().status, TaskStatus::Completed);
    assert!(table.set_error("x", "broken".to_string()));
    let t = table.get("x").unwrap();
    assert_eq!(t.status, TaskStatus::Error);
    assert_eq!(t.error_message.as_deref(), Some("broken"));
    assert!(table.set_segments("x", vec![Segment::new(0, 0, 9)]));
    assert_eq!(table.get("x").unwrap().segments.len(), 1);
    assert!(!table.set_status("nope", TaskStatus::Paused));
}

#[test]
fn task_progress() {
    let mut t = task("p", TaskStatus::Downloading);
    t.segments = vec![Segment::new(0, 0, 10), Segment::new(1, 10, 20)];
    t.segments[0].downloaded = 10;
    t.segments[1].downloaded = 3;
    assert_eq!(t.downloaded_bytes(), 13);
    assert!(!t.is_complete());
    t.segments[1].downloaded = 10;
    assert!(t.is_complete());
    let copy = t.duplicate();
    assert_eq!(copy.id, t.id);
    assert_eq!(copy.segments, t.segments);
}

#[test]
fn new_tasks_get_uuid_ids() {
    let t = DownloadTask::new("u".into(), "/f".into(), "/".into(), 2);
    assert_eq!(t.id.len(), 36);
    assert_eq!(t.status, TaskStatus::Pending);
    let other = DownloadTask::new("u".into(), "/f".into(), "/".into(), 2);
    assert_ne!(t.id, other.id);
}
