use edl::download_core::task::{DownloadTask, Timestamp};
use edl::storage::state::{find_state_by_url, is_state_file, state_file_name};
use edl::util::paths::join;
use edl::util::progress::{create_byte_counter, truncate_filename};
use std::sync::atomic::Ordering;

fn task(id: &str, url: &str) -> DownloadTask {
    DownloadTask::with_identity(id.into(), Timestamp { secs: 0, nanos: 0 }, url.into(), "/f".into(), "/".into(), 1)
}

#[test]
fn state_file_names() {
    assert_eq!(state_file_name("abc"), "abc.edl.state");
    assert!(is_state_file(&state_file_name("abc")));
    assert!(!is_state_file("abc.edl"));
    assert!(!is_state_file("state"));
}

#[test]
fn saved_state_found_by_url() {
    let tasks = vec![task("1", "http://a"), task("2", "http://b"), task("3", "http://b")];
    assert_eq!(find_state_by_url(tasks, "http://b").unwrap().id, "2");
    assert!(find_state_by_url(vec![task("1", "http://a")], "http://c").is_none());
}

#[test]
fn path_joining() {
    assert_eq!(join("/home/u/.config/edl", "edl.pid"), "/home/u/.config/edl/edl.pid");
    assert_eq!(join("dir/", "x"), "dir/x");
    assert_eq!(join("", "x"), "x");
    assert_eq!(join("dir", "/abs"), "/abs");
}

#[test]
fn display_names() {
    assert_eq!(truncate_filename("short.zip", 20), "short.zip");
    assert_eq!(truncate_filename("a-very-long-file-name.tar.gz", 20), "a-very-long-file-...");
    assert_eq!(truncate_filename("测试测试测试测试.zip", 18), "测试测试测...");
}

#[test]
fn byte_counter_starts_at_zero() {
    let c = create_byte_counter();
    assert_eq!(c.load(Ordering::Relaxed), 0);
}
