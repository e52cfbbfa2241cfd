//! Decisions of the download engine: how a task is created or resumed, how
//! its file is split, which segments still run, and what resuming a task
//! asks for.

use vstd::prelude::*;

use super::segment::{create_segments, create_single_segment, seg_complete, Segment, SegmentStatus};
use super::table::TaskTable;
use super::task::{DownloadTask, TaskStatus, TaskView};
use crate::config::{expand_hook, expand_vars, vars_view, Config};
use crate::net::http::{opt_string_view, strings_view, FileMetadata};
use crate::util::text::{
    chars_of, clone_opt_string, clone_strings, decimal_seq, decimal_string, push_decimal,
    push_str_chars, string_of,
};

verus! {

/// Options for creating a new download task.
#[derive(Debug)]
pub struct DownloadOptions {
    pub url: String,
    pub output: Option<String>,
    pub dir: Option<String>,
    pub split: u8,
    pub max_connections: u8,
    pub extra_headers: Vec<String>,
    pub extra_cookie: Option<String>,
}

/// Lifecycle events emitted by the download engine.
#[derive(Debug)]
pub enum EngineEvent {
    TaskStarted { task_id: String, url: String, file_path: String },
    TaskProgress { task_id: String, downloaded: u64, total: Option<u64> },
    TaskPaused { task_id: String, file_path: String },
    TaskCompleted { task_id: String, file_path: String, size: u64 },
    TaskError { task_id: String, file_path: String, message: String },
}

/// The server's entity tag differs from the one saved with the task (both known).
pub open spec fn etag_changed_spec(old: Option<Seq<char>>, new: Option<Seq<char>>) -> bool {
    old is Some && new is Some && old->0 != new->0
}

/// Whether a saved task must be discarded because the file changed on the server.
pub fn etag_changed(old: &Option<String>, new: &Option<String>) -> (r: bool)
    ensures
        r == etag_changed_spec(opt_string_view(*old), opt_string_view(*new)),
{
    match (old, new) {
        (Some(o), Some(n)) => {
            let oc = chars_of(o.as_str());
            let nc = chars_of(n.as_str());
            !crate::util::text::chars_eq(oc.as_slice(), nc.as_slice())
        },
        _ => false,
    }
}

/// A saved task taken up again: it follows the URL the server redirected
/// to, if any, is downloading, and carries no error.
pub fn resume_existing(prev: DownloadTask, final_url: Option<String>) -> (t: DownloadTask)
    ensures
        t@ == (TaskView {
            url: match final_url {
                Some(u) => u@,
                None => prev@.url,
            },
            status: TaskStatus::Downloading,
            error_message: None,
            ..prev@
        }),
{
    let mut t = prev;
    match final_url {
        Some(u) => {
            t.url = u;
        },
        None => {},
    }
    t.status = TaskStatus::Downloading;
    t.error_message = None;
    t
}

/// The name to save under: the one asked for, else the server's, else `download`.
pub open spec fn chosen_filename(output: Option<Seq<char>>, offered: Option<Seq<char>>) -> Seq<
    char,
> {
    match output {
        Some(o) => o,
        None => match offered {
            Some(f) => f,
            None => "download"@,
        },
    }
}

pub fn choose_filename(output: Option<String>, offered: Option<String>) -> (r: String)
    ensures
        r@ == chosen_filename(opt_string_view(output), opt_string_view(offered)),
{
    match output {
        Some(o) => o,
        None => match offered {
            Some(f) => f,
            None => string_of(chars_of("download").as_slice()),
        },
    }
}

/// The URL to fetch from: the final one after redirects, if any.
pub fn effective_url(url: String, final_url: Option<String>) -> (r: String)
    ensures
        r@ == (match final_url {
            Some(f) => f@,
            None => url@,
        }),
{
    match final_url {
        Some(f) => f,
        None => url,
    }
}

/// How a file is cut into segments: by `split` when its size is known, the
/// server accepts ranges and more than one part is asked for; one segment
/// for the whole known size otherwise; and, for an unknown size, one segment
/// reaching to `u64::MAX`.
pub fn plan_segments(content_length: Option<u64>, supports_range: bool, split: u8) -> (segs: Vec<
    Segment,
>)
    ensures
        segs@ == plan_segments_spec(content_length, supports_range, split),
        content_length matches Some(total) ==> crate::download_core::segment::segments_cover(
            segs@,
            total as nat,
        ),
{
    match content_length {
        Some(total) => {
            if supports_range && split > 1 {
                let segs = create_segments(total, split);
                assert(segs@ =~= plan_segments_spec(content_length, supports_range, split));
                segs
            } else {
                create_single_segment(total)
            }
        },
        None => {
            let mut v: Vec<Segment> = Vec::new();
            v.push(Segment::new(0, 0, u64::MAX));
            v
        },
    }
}

/// A fresh task filled in from the server's metadata: size, range support,
/// entity tag, the extra headers and cookie asked for, its segments, and the
/// `Downloading` status.
pub fn configure_new_task(
    task: DownloadTask,
    metadata: &FileMetadata,
    split: u8,
    extra_headers: Vec<String>,
    extra_cookie: Option<String>,
) -> (t: DownloadTask)
    ensures
        t@.id == task@.id,
        t@.url == task@.url,
        t@.file_path == task@.file_path,
        t@.download_dir == task@.download_dir,
        t@.created_at == task@.created_at,
        t@.max_connections == task@.max_connections,
        t@.error_message == task@.error_message,
        t@.total_size == metadata.content_length,
        t@.supports_range == metadata.supports_range,
        t@.etag == opt_string_view(metadata.etag),
        t@.extra_headers == strings_view(extra_headers@),
        t@.extra_cookie == opt_string_view(extra_cookie),
        t@.status == TaskStatus::Downloading,
        t@.segments == plan_segments_spec(metadata.content_length, metadata.supports_range, split),
{
    let mut t = task;
    t.total_size = metadata.content_length;
    t.supports_range = metadata.supports_range;
    t.etag = clone_opt_string(&metadata.etag);
    t.extra_headers = extra_headers;
    t.extra_cookie = extra_cookie;
    t.segments = plan_segments(metadata.content_length, metadata.supports_range, split);
    t.status = TaskStatus::Downloading;
    t
}

/// The segments `plan_segments` produces, as a sequence.
pub open spec fn plan_segments_spec(content_length: Option<u64>, supports_range: bool, split: u8) -> Seq<
    Segment,
> {
    match content_length {
        Some(total) => if supports_range && split > 1 {
            Seq::new(
                split as nat,
                |i: int|
                    Segment::new_spec(
                        i as u32,
                        crate::download_core::segment::split_start(
                            total as nat,
                            split as nat,
                            i as nat,
                        ) as u64,
                        (crate::download_core::segment::split_start(
                            total as nat,
                            split as nat,
                            i as nat,
                        ) + crate::download_core::segment::split_len(
                            total as nat,
                            split as nat,
                            i as nat,
                        )) as u64,
                    ),
            )
        } else {
            seq![Segment::new_spec(0, 0, total)]
        },
        None => seq![Segment::new_spec(0, 0, u64::MAX)],
    }
}

/// File stem and extension of a file name, as `Path::file_stem` and
/// `Path::extension` split it: at the last `.`, unless that dot starts the
/// name or the name is `..`.
pub open spec fn stem_and_ext(name: Seq<char>) -> (Seq<char>, Option<Seq<char>>) {
    if name == ".."@ {
        (name, None)
    } else {
        match crate::util::text::rfind_char(name, '.') {
            None => (name, None),
            Some(i) => if i == 0 {
                (name, None)
            } else {
                (name.take(i as int), Some(name.skip(i as int + 1)))
            },
        }
    }
}

/// The `n`-th alternative name for a file name that is taken:
/// `stem(n).ext`, or `stem(n)` without an extension; a missing file name
/// counts as `download`.
pub open spec fn conflict_name(file_name: Option<Seq<char>>, n: u32) -> Seq<char> {
    let (stem, ext) = match file_name {
        Some(f) => stem_and_ext(f),
        None => ("download"@, None),
    };
    stem + "("@ + decimal_seq(n as nat) + ")"@ + match ext {
        Some(e) => "."@ + e,
        None => Seq::empty(),
    }
}

/// Alternative name number `n` for a file whose name is taken.
pub fn conflict_candidate(file_name: Option<&str>, n: u32) -> (r: String)
    ensures
        r@ == conflict_name(crate::util::text::opt_str_view(file_name), n),
{
    let mut v: Vec<char> = Vec::new();
    let (stem, ext): (Vec<char>, Option<Vec<char>>) = match file_name {
        Some(f) => {
            let fc = chars_of(f);
            let dots = chars_of("..");
            if crate::util::text::chars_eq(fc.as_slice(), dots.as_slice()) {
                (fc, None)
            } else {
                match crate::util::text::rfind_char_index(fc.as_slice(), '.') {
                    None => (fc, None),
                    Some(i) => {
                        if i == 0 {
                            (fc, None)
                        } else {
                            let n = fc.len();
                            assert(i < n);
                            let after: usize = i + 1;
                            let st = crate::util::text::slice_chars(fc.as_slice(), 0, i);
                            let ex = crate::util::text::slice_chars(fc.as_slice(), after, n);
                            assert(st@ =~= f@.take(i as int));
                            assert(ex@ =~= f@.skip(i + 1));
                            (st, Some(ex))
                        }
                    },
                }
            }
        },
        None => (chars_of("download"), None),
    };
    let ghost parts = match file_name {
        Some(f) => stem_and_ext(f@),
        None => ("download"@, None),
    };
    assert(stem@ == parts.0);
    let mut i: usize = 0;
    while i < stem.len()
        invariant
            i <= stem@.len(),
            v@ =~= stem@.take(i as int),
        decreases stem@.len() - i,
    {
        v.push(stem[i]);
        i = i + 1;
    }
    assert(stem@.take(i as int) =~= stem@);
    push_str_chars(&mut v, "(");
    push_decimal(&mut v, n as u64);
    push_str_chars(&mut v, ")");
    let ghost before_ext = v@;
    match ext {
        Some(e) => {
            push_str_chars(&mut v, ".");
            let mut k: usize = 0;
            let ghost base = v@;
            while k < e.len()
                invariant
                    k <= e@.len(),
                    v@ =~= base + e@.take(k as int),
                decreases e@.len() - k,
            {
                v.push(e[k]);
                k = k + 1;
            }
            assert(e@.take(k as int) =~= e@);
            assert(parts.1 == Some(e@));
            assert(v@ =~= before_ext + ("."@ + e@));
        },
        None => {
            assert(parts.1 is None);
            assert(v@ =~= before_ext + Seq::<char>::empty());
        },
    }
    assert(v@ =~= conflict_name(crate::util::text::opt_str_view(file_name), n));
    string_of(v.as_slice())
}

/// Why a task cannot be resumed.
#[derive(Debug)]
pub enum ResumeError {
    /// No task has this id.
    NotFound(String),
    /// The task is neither paused nor failed.
    NotResumable(String),
}

/// The options that resume the task `t`: same URL, directory, connections,
/// headers and cookie, with as many parts as it has segments (kept to a byte).
pub open spec fn resume_options_for(t: TaskView, o: DownloadOptions) -> bool {
    &&& o.url@ == t.url
    &&& o.output is None
    &&& opt_string_view(o.dir) == Some(t.download_dir)
    &&& o.split as int == t.segments.len() % 256
    &&& o.max_connections == t.max_connections
    &&& strings_view(o.extra_headers@) == t.extra_headers
    &&& opt_string_view(o.extra_cookie) == t.extra_cookie
}

/// What resuming the task `id` asks of the engine: options for a new
/// download when the task is paused or failed.
pub fn resume_options(table: &TaskTable, id: &str) -> (r: Result<DownloadOptions, ResumeError>)
    ensures
        !table@.contains_key(id@) ==> (r matches Err(ResumeError::NotFound(x)) && x@ == id@),
        table@.contains_key(id@) && !(table@[id@].status == TaskStatus::Paused || table@[id@].status
            == TaskStatus::Error) ==> (r matches Err(ResumeError::NotResumable(x)) && x@ == id@),
        table@.contains_key(id@) && (table@[id@].status == TaskStatus::Paused || table@[id@].status
            == TaskStatus::Error) ==> (r matches Ok(o) && resume_options_for(table@[id@], o)),
{
    let idc = chars_of(id);
    let task = match table.get(id) {
        Some(t) => t,
        None => return Err(ResumeError::NotFound(string_of(idc.as_slice()))),
    };
    if task.status != TaskStatus::Paused && task.status != TaskStatus::Error {
        return Err(ResumeError::NotResumable(string_of(idc.as_slice())));
    }
    let n = task.segments.len();
    let split: u8 = (n % 256) as u8;
    Ok(
        DownloadOptions {
            url: task.url,
            output: None,
            dir: Some(task.download_dir),
            split,
            max_connections: task.max_connections,
            extra_headers: task.extra_headers,
            extra_cookie: task.extra_cookie,
        },
    )
}

/// Indices of the segments of `segs` that are not complete yet, in order.
pub open spec fn incomplete_indices(segs: Seq<Segment>) -> Seq<usize>
    decreases segs.len(),
{
    if segs.len() == 0 {
        Seq::empty()
    } else if seg_complete(segs.last()) {
        incomplete_indices(segs.drop_last())
    } else {
        incomplete_indices(segs.drop_last()).push((segs.len() - 1) as usize)
    }
}

/// The segments a run of the task must still download.
pub fn segments_to_launch(segs: &Vec<Segment>) -> (r: Vec<usize>)
    requires
        forall|i: int| 0 <= i < segs@.len() ==> #[trigger] segs@[i].start <= segs@[i].end,
    ensures
        r@ == incomplete_indices(segs@),
{
    let mut r: Vec<usize> = Vec::new();
    let mut i: usize = 0;
    while i < segs.len()
        invariant
            i <= segs@.len(),
            forall|k: int| 0 <= k < segs@.len() ==> #[trigger] segs@[k].start <= segs@[k].end,
            r@ == incomplete_indices(segs@.take(i as int)),
        decreases segs@.len() - i,
    {
        let ghost p = segs@.take(i + 1);
        assert(p.drop_last() =~= segs@.take(i as int));
        assert(p.last() == segs@[i as int]);
        if !segs[i].is_complete() {
            r.push(i);
        }
        i = i + 1;
    }
    assert(segs@.take(i as int) =~= segs@);
    r
}

/// Copies the live byte counters into the segments, pairwise.
pub fn apply_progress(segs: &mut Vec<Segment>, counters: &Vec<u64>)
    ensures
        final(segs)@.len() == old(segs)@.len(),
        forall|i: int|
            0 <= i < old(segs)@.len() ==> #[trigger] final(segs)@[i] == if i < counters@.len() {
                Segment { downloaded: counters@[i], ..old(segs)@[i] }
            } else {
                old(segs)@[i]
            },
{
    let mut i: usize = 0;
    while i < segs.len() && i < counters.len()
        invariant
            i <= segs@.len(),
            i <= counters@.len(),
            segs@.len() == old(segs)@.len(),
            forall|k: int|
                0 <= k < old(segs)@.len() ==> #[trigger] segs@[k] == if k < i {
                    Segment { downloaded: counters@[k], ..old(segs)@[k] }
                } else {
                    old(segs)@[k]
                },
        decreases segs@.len() - i,
    {
        let mut s = segs[i];
        s.downloaded = counters[i];
        segs.set(i, s);
        i = i + 1;
    }
}

/// The next move while looking for a free file name: the path asked for has
/// number 0, alternative `n` is `conflict_name(.., n)`, and at most 999
/// alternatives are tried before the path asked for is used after all.
#[derive(Debug)]
pub enum ConflictStep {
    /// Save under the path asked for.
    KeepOriginal,
    /// Save under the alternative that was just found free.
    UseCandidate,
    /// See whether alternative `n`, named `name`, is free.
    Probe { n: u32, name: String },
}

/// What follows from learning whether the name numbered `probed` is taken.
pub fn conflict_step(file_name: Option<&str>, probed: u32, taken: bool) -> (r: ConflictStep)
    requires
        probed <= 999,
    ensures
        !taken && probed == 0 ==> r is KeepOriginal,
        !taken && probed > 0 ==> r is UseCandidate,
        taken && probed < 999 ==> (r matches ConflictStep::Probe { n, name } && n == probed + 1
            && name@ == conflict_name(crate::util::text::opt_str_view(file_name), n)),
        taken && probed == 999 ==> r is KeepOriginal,
{
    if !taken {
        if probed == 0 {
            ConflictStep::KeepOriginal
        } else {
            ConflictStep::UseCandidate
        }
    } else if probed < 999 {
        let n = probed + 1;
        ConflictStep::Probe { n, name: conflict_candidate(file_name, n) }
    } else {
        ConflictStep::KeepOriginal
    }
}

/// The command the configured hooks run for an event, with its placeholders
/// filled in: `on_start` gets `{file}`, `{id}` and `{url}`; `on_complete`
/// gets `{file}`, `{size}` and `{id}`; `on_pause` gets `{file}` and `{id}`;
/// `on_error` gets `{file}`, `{id}` and `{error}`. Progress reports run no
/// hook.
pub open spec fn hook_for(c: Config, e: EngineEvent) -> Option<Seq<char>> {
    match e {
        EngineEvent::TaskStarted { task_id, url, file_path } => match c.on_start {
            Some(t) => Some(
                expand_vars(t@, seq![("file"@, file_path@), ("id"@, task_id@), ("url"@, url@)]),
            ),
            None => None,
        },
        EngineEvent::TaskCompleted { task_id, file_path, size } => match c.on_complete {
            Some(t) => Some(
                expand_vars(
                    t@,
                    seq![("file"@, file_path@), ("size"@, decimal_seq(size as nat)), ("id"@, task_id@)],
                ),
            ),
            None => None,
        },
        EngineEvent::TaskPaused { task_id, file_path } => match c.on_pause {
            Some(t) => Some(expand_vars(t@, seq![("file"@, file_path@), ("id"@, task_id@)])),
            None => None,
        },
        EngineEvent::TaskError { task_id, file_path, message } => match c.on_error {
            Some(t) => Some(
                expand_vars(t@, seq![("file"@, file_path@), ("id"@, task_id@), ("error"@, message@)]),
            ),
            None => None,
        },
        EngineEvent::TaskProgress { .. } => None,
    }
}

/// The hook command to run for an event, if the configuration has one.
pub fn hook_command(config: &Config, event: &EngineEvent) -> (r: Option<String>)
    ensures
        opt_string_view(r) == hook_for(*config, *event),
{
    match event {
        EngineEvent::TaskStarted { task_id, url, file_path } => match &config.on_start {
            Some(t) => {
                let vars = vec![("file", file_path.as_str()), ("id", task_id.as_str()), ("url", url.as_str())];
                assert(vars_view(vars@) =~= seq![("file"@, file_path@), ("id"@, task_id@), ("url"@, url@)]);
                Some(expand_hook(t.as_str(), vars.as_slice()))
            },
            None => None,
        },
        EngineEvent::TaskCompleted { task_id, file_path, size } => match &config.on_complete {
            Some(t) => {
                let size_text = decimal_string(*size);
                let vars = vec![("file", file_path.as_str()), ("size", size_text.as_str()), ("id", task_id.as_str())];
                assert(vars_view(vars@) =~= seq![("file"@, file_path@), ("size"@, decimal_seq(*size as nat)), ("id"@, task_id@)]);
                Some(expand_hook(t.as_str(), vars.as_slice()))
            },
            None => None,
        },
        EngineEvent::TaskPaused { task_id, file_path } => match &config.on_pause {
            Some(t) => {
                let vars = vec![("file", file_path.as_str()), ("id", task_id.as_str())];
                assert(vars_view(vars@) =~= seq![("file"@, file_path@), ("id"@, task_id@)]);
                Some(expand_hook(t.as_str(), vars.as_slice()))
            },
            None => None,
        },
        EngineEvent::TaskError { task_id, file_path, message } => match &config.on_error {
            Some(t) => {
                let vars = vec![("file", file_path.as_str()), ("id", task_id.as_str()), ("error", message.as_str())];
                assert(vars_view(vars@) =~= seq![("file"@, file_path@), ("id"@, task_id@), ("error"@, message@)]);
                Some(expand_hook(t.as_str(), vars.as_slice()))
            },
            None => None,
        },
        EngineEvent::TaskProgress { .. } => None,
    }
}

/// How a run of a task ends once all its segment workers are done.
#[derive(Debug, Clone, Copy, PartialEq, Eq, Structural)]
pub enum Completion {
    /// Some segment failed: the task fails with their errors.
    Failed,
    /// Several segment files are put together into the output file.
    Merge,
    /// The one segment file becomes the output file.
    Rename,
}

pub fn completion_step(segment_count: usize, failed_segments: usize) -> (r: Completion)
    ensures
        failed_segments > 0 ==> r == Completion::Failed,
        failed_segments == 0 && segment_count > 1 ==> r == Completion::Merge,
        failed_segments == 0 && segment_count <= 1 ==> r == Completion::Rename,
{
    if failed_segments > 0 {
        Completion::Failed
    } else if segment_count > 1 {
        Completion::Merge
    } else {
        Completion::Rename
    }
}

/// How the failure of segment `index` is reported.
pub open spec fn segment_error_text(index: nat, message: Seq<char>) -> Seq<char> {
    "segment "@ + decimal_seq(index) + ": "@ + message
}

pub fn segment_error_line(index: usize, message: &str) -> (r: String)
    ensures
        r@ == segment_error_text(index as nat, message@),
{
    let mut v: Vec<char> = Vec::new();
    push_str_chars(&mut v, "segment ");
    push_decimal(&mut v, index as u64);
    push_str_chars(&mut v, ": ");
    push_str_chars(&mut v, message);
    string_of(v.as_slice())
}

/// Lines joined with newlines between them.
pub open spec fn joined_lines(lines: Seq<Seq<char>>) -> Seq<char>
    decreases lines.len(),
{
    if lines.len() == 0 {
        Seq::empty()
    } else if lines.len() == 1 {
        lines[0]
    } else {
        joined_lines(lines.drop_last()) + "\n"@ + lines.last()
    }
}

/// The error a run with failed segments ends with.
pub open spec fn download_errors_text(lines: Seq<Seq<char>>) -> Seq<char> {
    "download errors:\n"@ + joined_lines(lines)
}

pub fn download_errors_message(lines: &[String]) -> (r: String)
    ensures
        r@ == download_errors_text(strings_view(lines@)),
{
    let mut v: Vec<char> = Vec::new();
    push_str_chars(&mut v, "download errors:\n");
    let ghost head = v@;
    let mut i: usize = 0;
    while i < lines.len()
        invariant
            i <= lines@.len(),
            v@ == head + joined_lines(strings_view(lines@.take(i as int))),
        decreases lines@.len() - i,
    {
        let ghost before = v@;
        if i > 0 {
            push_str_chars(&mut v, "\n");
        }
        push_str_chars(&mut v, lines[i].as_str());
        proof {
            let p = strings_view(lines@.take(i + 1));
            assert(p.drop_last() =~= strings_view(lines@.take(i as int)));
            assert(p.last() == lines@[i as int]@);
            if i == 0 {
                assert(strings_view(lines@.take(0)) =~= Seq::<Seq<char>>::empty());
            }
        }
        i = i + 1;
    }
    assert(lines@.take(i as int) =~= lines@);
    string_of(v.as_slice())
}

/// The message a refused resume is reported with.
pub open spec fn resume_error_text(e: ResumeError) -> Seq<char> {
    match e {
        ResumeError::NotFound(id) => "task not found: "@ + id@,
        ResumeError::NotResumable(id) => "task "@ + id@ + " is not paused or errored"@,
    }
}

impl ResumeError {
    pub fn message(&self) -> (r: String)
        ensures
            r@ == resume_error_text(*self),
    {
        let mut v: Vec<char> = Vec::new();
        match self {
            ResumeError::NotFound(id) => {
                push_str_chars(&mut v, "task not found: ");
                push_str_chars(&mut v, id.as_str());
            },
            ResumeError::NotResumable(id) => {
                push_str_chars(&mut v, "task ");
                push_str_chars(&mut v, id.as_str());
                push_str_chars(&mut v, " is not paused or errored");
            },
        }
        string_of(v.as_slice())
    }
}

/// Every alternative name differs from the name asked for, and different
/// alternatives differ from each other, so each probe looks at a new name.
pub proof fn lemma_conflict_names_new(file_name: Option<Seq<char>>, n: u32, m: u32)
    ensures
        file_name matches Some(f) ==> conflict_name(file_name, n) != f,
        n != m ==> conflict_name(file_name, n) != conflict_name(file_name, m),
{
    let (stem, ext) = match file_name {
        Some(f) => stem_and_ext(f),
        None => ("download"@, None),
    };
    let tail: Seq<char> = match ext {
        Some(e) => "."@ + e,
        None => Seq::empty(),
    };
    reveal_strlit("(");
    reveal_strlit(")");
    reveal_strlit(".");
    crate::util::text::lemma_decimal_digits(n as nat);
    crate::util::text::lemma_decimal_digits(m as nat);
    match file_name {
        Some(f) => {
            crate::util::text::lemma_rfind_char_bound(f, '.');
            assert(conflict_name(file_name, n).len() > f.len());
        },
        None => {},
    }
    if n != m && conflict_name(file_name, n) == conflict_name(file_name, m) {
        let a = conflict_name(file_name, n);
        let b = conflict_name(file_name, m);
        assert(a =~= stem + "("@ + decimal_seq(n as nat) + ")"@ + tail);
        assert(b =~= stem + "("@ + decimal_seq(m as nat) + ")"@ + tail);
        assert(decimal_seq(n as nat).len() == decimal_seq(m as nat).len());
        let lo = stem.len() + 1;
        let hi = lo + decimal_seq(n as nat).len();
        assert(a.subrange(lo as int, hi as int) =~= decimal_seq(n as nat));
        assert(b.subrange(lo as int, hi as int) =~= decimal_seq(m as nat));
        crate::util::text::lemma_decimal_injective(n as u64, m as u64);
    }
}

/// A task that was just paused can be resumed.
pub proof fn lemma_paused_task_resumable(m: Map<Seq<char>, TaskView>, id: Seq<char>)
    requires
        m.contains_key(id),
    ensures
        m.insert(id, TaskView { status: TaskStatus::Paused, ..m[id] }).contains_key(id),
        resumable(m.insert(id, TaskView { status: TaskStatus::Paused, ..m[id] })[id]),
{
}

/// What `resume_options` accepts: a paused or failed task.
pub open spec fn resumable(t: TaskView) -> bool {
    t.status == TaskStatus::Paused || t.status == TaskStatus::Error
}

/// A file of known size on a server that takes ranges, asked for in
/// `split >= 2` parts, is planned as exactly `split` segments, numbered in
/// order, lying back to back from byte 0 to the end of the file. Otherwise
/// the plan is one segment from byte 0 to the end (or to `u64::MAX` when the
/// size is unknown).
pub proof fn lemma_plan_uses_split(content_length: Option<u64>, supports_range: bool, split: u8)
    ensures
        ({
            let plan = plan_segments_spec(content_length, supports_range, split);
            &&& content_length is Some && supports_range && split > 1 ==> {
                &&& plan.len() == split
                &&& forall|i: int| 0 <= i < plan.len() ==> #[trigger] plan[i].index == i
                &&& plan[0].start == 0
                &&& plan[plan.len() - 1].end == content_length->0
                &&& forall|i: int| 0 <= i < plan.len() - 1 ==> #[trigger] plan[i].end == plan[i + 1].start
            }
            &&& !(content_length is Some && supports_range && split > 1) ==> {
                &&& plan.len() == 1
                &&& plan[0].start == 0
                &&& plan[0].end == match content_length {
                    Some(t) => t,
                    None => u64::MAX,
                }
            }
        }),
{
    let plan = plan_segments_spec(content_length, supports_range, split);
    if content_length is Some && supports_range && split > 1 {
        let total = content_length->0 as nat;
        let n = split as nat;
        assert forall|i: int| 0 <= i < plan.len() - 1 implies #[trigger] plan[i].end == plan[i + 1].start by {
            crate::download_core::segment::lemma_split_start_step(total, n, i as nat);
            crate::download_core::segment::lemma_split_start_bound(total, n, (i + 1) as nat);
        }
        crate::download_core::segment::lemma_split_start_step(total, n, (n - 1) as nat);
        crate::download_core::segment::lemma_split_start_bound(total, n, n);
        crate::download_core::segment::lemma_split_start_bound(total, n, 0);
        assert(plan[0].start == 0);
    }
}

/// Resuming a task asks again for its own download: its URL, into its
/// directory, with its connections, request headers and cookie, and as
/// many parts as it has segments (kept to a byte).
pub proof fn lemma_resume_keeps_task_settings(t: TaskView, o: DownloadOptions)
    requires
        resume_options_for(t, o),
    ensures
        o.url@ == t.url,
        opt_string_view(o.dir) == Some(t.download_dir),
        o.max_connections == t.max_connections,
        strings_view(o.extra_headers@) == t.extra_headers,
        opt_string_view(o.extra_cookie) == t.extra_cookie,
        o.output is None,
        o.split as int == t.segments.len() % 256,
{
}

} // verus!
