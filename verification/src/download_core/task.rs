//! A download task: what is fetched, where it goes, and how far it got.

use vstd::prelude::*;

use super::segment::{seg_complete, Segment};
use crate::net::http::{opt_string_view, strings_view};
use crate::util::text::{clone_opt_string, clone_strings};

verus! {

#[derive(Debug, Clone, Copy, PartialEq, Eq, Structural)]
pub enum TaskStatus {
    Pending,
    Downloading,
    Paused,
    Completed,
    Error,
}

/// A UTC instant as seconds since the Unix epoch and the nanoseconds within
/// that second.
#[derive(Debug, Clone, Copy, PartialEq, Eq, Structural)]
pub struct Timestamp {
    pub secs: i64,
    pub nanos: u32,
}

/// The present UTC time (`chrono::Utc::now()`, read with `timestamp` and
/// `timestamp_subsec_nanos`). Nothing is stated of it: it comes from the clock.
#[verifier::external_body]
fn utc_now() -> Timestamp {
    let now = chrono::Utc::now();
    Timestamp { secs: now.timestamp(), nanos: now.timestamp_subsec_nanos() }
}

pub open spec fn is_lower_hex_char(c: char) -> bool {
    ('0' <= c && c <= '9') || ('a' <= c && c <= 'f')
}

/// Text of a hyphenated lower-case UUID: 36 characters, hyphens at 8, 13, 18
/// and 23, lower-case hex digits elsewhere.
pub open spec fn is_uuid_text(s: Seq<char>) -> bool {
    &&& s.len() == 36
    &&& forall|i: int|
        0 <= i < 36 ==> if i == 8 || i == 13 || i == 18 || i == 23 {
            #[trigger] s[i] == '-'
        } else {
            is_lower_hex_char(s[i])
        }
}

/// A fresh random identifier: `uuid::Uuid::new_v4().to_string()`, whose
/// `Display` writes the hyphenated lower-case form. The value itself is random.
#[verifier::external_body]
fn new_task_id() -> (id: String)
    ensures
        is_uuid_text(id@),
{
    uuid::Uuid::new_v4().to_string()
}

#[derive(Debug)]
pub struct DownloadTask {
    pub id: String,
    pub url: String,
    pub file_path: String,
    pub total_size: Option<u64>,
    pub supports_range: bool,
    pub etag: Option<String>,
    pub segments: Vec<Segment>,
    pub status: TaskStatus,
    pub created_at: Timestamp,
    pub max_connections: u8,
    pub download_dir: String,
    pub error_message: Option<String>,
    /// Request headers (`Key: Value`) sent with each of its requests.
    pub extra_headers: Vec<String>,
    /// Cookie string sent with each of its requests.
    pub extra_cookie: Option<String>,
}

/// A task as plain values.
pub struct TaskView {
    pub id: Seq<char>,
    pub url: Seq<char>,
    pub file_path: Seq<char>,
    pub total_size: Option<u64>,
    pub supports_range: bool,
    pub etag: Option<Seq<char>>,
    pub segments: Seq<Segment>,
    pub status: TaskStatus,
    pub created_at: Timestamp,
    pub max_connections: u8,
    pub download_dir: Seq<char>,
    pub error_message: Option<Seq<char>>,
    pub extra_headers: Seq<Seq<char>>,
    pub extra_cookie: Option<Seq<char>>,
}

impl View for DownloadTask {
    type V = TaskView;

    open spec fn view(&self) -> TaskView {
        TaskView {
            id: self.id@,
            url: self.url@,
            file_path: self.file_path@,
            total_size: self.total_size,
            supports_range: self.supports_range,
            etag: opt_string_view(self.etag),
            segments: self.segments@,
            status: self.status,
            created_at: self.created_at,
            max_connections: self.max_connections,
            download_dir: self.download_dir@,
            error_message: opt_string_view(self.error_message),
            extra_headers: strings_view(self.extra_headers@),
            extra_cookie: opt_string_view(self.extra_cookie),
        }
    }
}

/// Bytes downloaded over all segments.
pub open spec fn downloaded_sum(segs: Seq<Segment>) -> nat
    decreases segs.len(),
{
    if segs.len() == 0 {
        0
    } else {
        downloaded_sum(segs.drop_last()) + (segs.last().downloaded as nat)
    }
}

/// A fresh task: no size or segments known yet, pending, no error.
pub open spec fn fresh_task(
    t: TaskView,
    id: Seq<char>,
    created_at: Timestamp,
    url: Seq<char>,
    file_path: Seq<char>,
    download_dir: Seq<char>,
    max_connections: u8,
) -> bool {
    &&& t.id == id
    &&& t.url == url
    &&& t.file_path == file_path
    &&& t.download_dir == download_dir
    &&& t.created_at == created_at
    &&& t.max_connections == max_connections
    &&& t.total_size is None
    &&& !t.supports_range
    &&& t.etag is None
    &&& t.segments.len() == 0
    &&& t.status == TaskStatus::Pending
    &&& t.error_message is None
    &&& t.extra_headers.len() == 0
    &&& t.extra_cookie is None
}

impl DownloadTask {
    /// A fresh task with the given identity and creation time.
    pub fn with_identity(
        id: String,
        created_at: Timestamp,
        url: String,
        file_path: String,
        download_dir: String,
        max_connections: u8,
    ) -> (t: Self)
        ensures
            fresh_task(t@, id@, created_at, url@, file_path@, download_dir@, max_connections),
    {
        DownloadTask {
            id,
            url,
            file_path,
            total_size: None,
            supports_range: false,
            etag: None,
            segments: Vec::new(),
            status: TaskStatus::Pending,
            created_at,
            max_connections,
            download_dir,
            error_message: None,
            extra_headers: Vec::new(),
            extra_cookie: None,
        }
    }

    /// A fresh task with a new random id, created now.
    pub fn new(url: String, file_path: String, download_dir: String, max_connections: u8) -> (t:
        Self)
        ensures
            is_uuid_text(t.id@),
            fresh_task(t@, t.id@, t.created_at, url@, file_path@, download_dir@, max_connections),
    {
        let id = new_task_id();
        let created_at = utc_now();
        Self::with_identity(id, created_at, url, file_path, download_dir, max_connections)
    }

    /// An identical copy of the task.
    pub fn duplicate(&self) -> (r: Self)
        ensures
            r@ == self@,
    {
        let r = DownloadTask {
            id: self.id.clone(),
            url: self.url.clone(),
            file_path: self.file_path.clone(),
            total_size: self.total_size,
            supports_range: self.supports_range,
            etag: clone_opt_string(&self.etag),
            segments: self.segments.clone(),
            status: self.status,
            created_at: self.created_at,
            max_connections: self.max_connections,
            download_dir: self.download_dir.clone(),
            error_message: clone_opt_string(&self.error_message),
            extra_headers: clone_strings(&self.extra_headers),
            extra_cookie: clone_opt_string(&self.extra_cookie),
        };
        assert(r.segments@ =~= self.segments@);
        assert(r@ == self@);
        r
    }

    pub fn downloaded_bytes(&self) -> (r: u64)
        requires
            downloaded_sum(self.segments@) <= u64::MAX,
        ensures
            r == downloaded_sum(self.segments@),
    {
        let mut total: u64 = 0;
        let mut i: usize = 0;
        while i < self.segments.len()
            invariant
                i <= self.segments@.len(),
                downloaded_sum(self.segments@) <= u64::MAX,
                total == downloaded_sum(self.segments@.take(i as int)),
            decreases self.segments@.len() - i,
        {
            assert(self.segments@.take(i + 1).drop_last() =~= self.segments@.take(i as int));
            proof {
                lemma_downloaded_sum_prefix(self.segments@, i + 1);
            }
            total = total + self.segments[i].downloaded;
            i = i + 1;
        }
        assert(self.segments@.take(i as int) =~= self.segments@);
        total
    }

    pub fn is_complete(&self) -> (r: bool)
        requires
            forall|i: int| 0 <= i < self.segments@.len() ==> #[trigger] self.segments@[i].start
                <= self.segments@[i].end,
        ensures
            r == forall|i: int| 0 <= i < self.segments@.len() ==> seg_complete(
                #[trigger] self.segments@[i],
            ),
    {
        let mut i: usize = 0;
        while i < self.segments.len()
            invariant
                i <= self.segments@.len(),
                forall|k: int| 0 <= k < self.segments@.len() ==> #[trigger] self.segments@[k].start
                    <= self.segments@[k].end,
                forall|k: int| 0 <= k < i ==> seg_complete(#[trigger] self.segments@[k]),
            decreases self.segments@.len() - i,
        {
            if !self.segments[i].is_complete() {
                return false;
            }
            i = i + 1;
        }
        true
    }
}

proof fn lemma_downloaded_sum_prefix(segs: Seq<Segment>, k: int)
    requires
        0 <= k <= segs.len(),
    ensures
        downloaded_sum(segs.take(k)) <= downloaded_sum(segs),
    decreases segs.len(),
{
    if k < segs.len() {
        assert(segs.drop_last().take(k) =~= segs.take(k));
        lemma_downloaded_sum_prefix(segs.drop_last(), k);
    } else {
        assert(segs.take(k) =~= segs);
    }
}

} // verus!
