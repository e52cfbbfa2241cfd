//! Naming and finding the files that keep a task's state next to its
//! download, so that an interrupted download can be resumed.

use vstd::prelude::*;

use crate::download_core::table::views_of;
use crate::download_core::task::{DownloadTask, TaskView};
use crate::util::text::{chars_eq, chars_of, push_str_chars, string_of};

verus! {

/// The suffix of a state file.
pub open spec fn state_ext() -> Seq<char> {
    ".edl.state"@
}

/// The name of the file keeping the state of task `id`: `<id>.edl.state`.
pub open spec fn state_file_name_of(id: Seq<char>) -> Seq<char> {
    id + state_ext()
}

pub fn state_file_name(task_id: &str) -> (r: String)
    ensures
        r@ == state_file_name_of(task_id@),
{
    let mut v: Vec<char> = Vec::new();
    push_str_chars(&mut v, task_id);
    push_str_chars(&mut v, ".edl.state");
    string_of(v.as_slice())
}

/// `s` ends with `p`.
pub open spec fn has_suffix(s: Seq<char>, p: Seq<char>) -> bool {
    p.len() <= s.len() && s.skip(s.len() - p.len()) == p
}

/// Whether a file name is that of a state file.
pub fn is_state_file(name: &str) -> (r: bool)
    ensures
        r == has_suffix(name@, state_ext()),
{
    let n = chars_of(name);
    let ext = chars_of(".edl.state");
    if ext.len() > n.len() {
        return false;
    }
    let tail = crate::util::text::slice_chars(n.as_slice(), n.len() - ext.len(), n.len());
    assert(tail@ =~= name@.skip(name@.len() - state_ext().len()));
    chars_eq(tail.as_slice(), ext.as_slice())
}

/// Position of the first saved task downloading from `url`.
pub open spec fn first_with_url(tasks: Seq<TaskView>, url: Seq<char>) -> Option<int>
    decreases tasks.len(),
{
    if tasks.len() == 0 {
        None
    } else if tasks[0].url == url {
        Some(0)
    } else {
        match first_with_url(tasks.skip(1), url) {
            Some(i) => Some(i + 1),
            None => None,
        }
    }
}

/// The saved state to resume a download of `url` from: the first of the
/// saved tasks that downloads from it.
pub fn find_state_by_url(tasks: Vec<DownloadTask>, url: &str) -> (r: Option<DownloadTask>)
    ensures
        match first_with_url(views_of(tasks@), url@) {
            Some(i) => r matches Some(t) && t@ == tasks@[i]@,
            None => r is None,
        },
{
    let uc = chars_of(url);
    let mut i: usize = 0;
    let ghost vs = views_of(tasks@);
    assert(vs.skip(0) =~= vs);
    while i < tasks.len()
        invariant
            i <= tasks@.len(),
            uc@ == url@,
            vs == views_of(tasks@),
            vs.len() == tasks@.len(),
            first_with_url(vs, url@) == match first_with_url(vs.skip(i as int), url@) {
                Some(k) => Some(k + i),
                None => None,
            },
        decreases tasks@.len() - i,
    {
        assert(vs.skip(i as int)[0] == tasks@[i as int]@);
        assert(vs.skip(i as int).skip(1) =~= vs.skip(i + 1));
        let tu = chars_of(tasks[i].url.as_str());
        if chars_eq(tu.as_slice(), uc.as_slice()) {
            let mut ts = tasks;
            let t = ts.remove(i);
            return Some(t);
        }
        i = i + 1;
    }
    None
}

/// The file a task's state is saved to is recognised as a state file.
pub proof fn lemma_state_file_recognized(id: Seq<char>)
    ensures
        has_suffix(state_file_name_of(id), state_ext()),
{
    assert(state_file_name_of(id).skip(state_file_name_of(id).len() - state_ext().len()) =~= state_ext());
}

} // verus!
