//! The engine's registry of tasks, keyed by task id.

use vstd::prelude::*;

use super::segment::Segment;
use super::task::{DownloadTask, TaskStatus, TaskView};
use crate::util::text::{chars_eq, chars_of};

verus! {

pub open spec fn views_of(s: Seq<DownloadTask>) -> Seq<TaskView> {
    s.map_values(|t: DownloadTask| t@)
}

/// The map from id to task that a list of tasks with distinct ids stands for.
pub open spec fn task_map(s: Seq<TaskView>) -> Map<Seq<char>, TaskView>
    decreases s.len(),
{
    if s.len() == 0 {
        Map::empty()
    } else {
        task_map(s.drop_last()).insert(s.last().id, s.last())
    }
}

/// No two tasks share an id.
pub open spec fn unique_ids(s: Seq<TaskView>) -> bool {
    forall|i: int, j: int| 0 <= i < j < s.len() ==> #[trigger] s[i].id != #[trigger] s[j].id
}

proof fn lemma_task_map_dom(s: Seq<TaskView>)
    ensures
        forall|k: Seq<char>| #[trigger]
            task_map(s).contains_key(k) <==> exists|i: int| 0 <= i < s.len() && s[i].id == k,
        task_map(s).dom().finite(),
    decreases s.len(),
{
    if s.len() > 0 {
        let p = s.drop_last();
        lemma_task_map_dom(p);
        assert forall|k: Seq<char>| #[trigger]
            task_map(s).contains_key(k) <==> exists|i: int| 0 <= i < s.len() && s[i].id == k by {
            if task_map(s).contains_key(k) {
                if k == s.last().id {
                    assert(s[s.len() - 1].id == k);
                } else {
                    let i = choose|i: int| 0 <= i < p.len() && p[i].id == k;
                    assert(s[i].id == k);
                }
            }
            if exists|i: int| 0 <= i < s.len() && s[i].id == k {
                let i = choose|i: int| 0 <= i < s.len() && s[i].id == k;
                if i < s.len() - 1 {
                    assert(p[i].id == k);
                }
            }
        }
    }
}

proof fn lemma_task_map_get(s: Seq<TaskView>, i: int)
    requires
        unique_ids(s),
        0 <= i < s.len(),
    ensures
        task_map(s).contains_key(s[i].id),
        task_map(s)[s[i].id] == s[i],
    decreases s.len(),
{
    if i < s.len() - 1 {
        let p = s.drop_last();
        assert(unique_ids(p)) by {
            assert forall|a: int, b: int| 0 <= a < b < p.len() implies #[trigger] p[a].id
                != #[trigger] p[b].id by {
                assert(s[a].id != s[b].id);
            }
        }
        lemma_task_map_get(p, i);
        assert(s[i].id != s[s.len() - 1].id);
    }
}

proof fn lemma_task_map_len(s: Seq<TaskView>)
    requires
        unique_ids(s),
    ensures
        task_map(s).len() == s.len(),
    decreases s.len(),
{
    if s.len() > 0 {
        let p = s.drop_last();
        assert(unique_ids(p)) by {
            assert forall|a: int, b: int| 0 <= a < b < p.len() implies #[trigger] p[a].id
                != #[trigger] p[b].id by {
                assert(s[a].id != s[b].id);
            }
        }
        lemma_task_map_len(p);
        lemma_task_map_dom(p);
        if task_map(p).contains_key(s.last().id) {
            let i = choose|i: int| 0 <= i < p.len() && p[i].id == s.last().id;
            assert(s[i].id == s[s.len() - 1].id);
        }
    }
}

/// A map equals another when they have the same keys and the same values.
proof fn lemma_maps_equal(a: Map<Seq<char>, TaskView>, b: Map<Seq<char>, TaskView>)
    requires
        forall|k: Seq<char>| #[trigger] a.contains_key(k) <==> b.contains_key(k),
        forall|k: Seq<char>| #[trigger] a.contains_key(k) ==> a[k] == b[k],
    ensures
        a == b,
{
    assert(a =~= b);
}

proof fn lemma_task_map_update(s: Seq<TaskView>, i: int, t: TaskView)
    requires
        unique_ids(s),
        0 <= i < s.len(),
        t.id == s[i].id,
    ensures
        unique_ids(s.update(i, t)),
        task_map(s.update(i, t)) == task_map(s).insert(t.id, t),
{
    let u = s.update(i, t);
    assert(unique_ids(u)) by {
        assert forall|a: int, b: int| 0 <= a < b < u.len() implies #[trigger] u[a].id
            != #[trigger] u[b].id by {
            assert(s[a].id != s[b].id);
        }
    }
    lemma_task_map_dom(s);
    lemma_task_map_dom(u);
    let m = task_map(s).insert(t.id, t);
    assert forall|k: Seq<char>| #[trigger] task_map(u).contains_key(k) <==> m.contains_key(k) by {
        if task_map(u).contains_key(k) {
            let j = choose|j: int| 0 <= j < u.len() && u[j].id == k;
            assert(s[j].id == k);
        }
        if m.contains_key(k) && k != t.id {
            let j = choose|j: int| 0 <= j < s.len() && s[j].id == k;
            assert(u[j].id == k);
        }
        if k == t.id {
            assert(u[i].id == k);
        }
    }
    assert forall|k: Seq<char>| #[trigger] task_map(u).contains_key(k) implies task_map(u)[k]
        == m[k] by {
        let j = choose|j: int| 0 <= j < u.len() && u[j].id == k;
        lemma_task_map_get(u, j);
        if j != i {
            lemma_task_map_get(s, j);
        }
    }
    lemma_maps_equal(task_map(u), m);
}

proof fn lemma_task_map_remove(s: Seq<TaskView>, i: int)
    requires
        unique_ids(s),
        0 <= i < s.len(),
    ensures
        unique_ids(s.remove(i)),
        task_map(s.remove(i)) == task_map(s).remove(s[i].id),
{
    let u = s.remove(i);
    let k0 = s[i].id;
    assert forall|j: int| 0 <= j < u.len() implies #[trigger] u[j] == (if j < i {
        s[j]
    } else {
        s[j + 1]
    }) by {}
    assert(unique_ids(u)) by {
        assert forall|a: int, b: int| 0 <= a < b < u.len() implies #[trigger] u[a].id
            != #[trigger] u[b].id by {
            let a2 = if a < i {
                a
            } else {
                a + 1
            };
            let b2 = if b < i {
                b
            } else {
                b + 1
            };
            assert(s[a2].id != s[b2].id);
        }
    }
    lemma_task_map_dom(s);
    lemma_task_map_dom(u);
    let m = task_map(s).remove(k0);
    assert forall|k: Seq<char>| #[trigger] task_map(u).contains_key(k) <==> m.contains_key(k) by {
        if task_map(u).contains_key(k) {
            let j = choose|j: int| 0 <= j < u.len() && u[j].id == k;
            let j2 = if j < i {
                j
            } else {
                j + 1
            };
            assert(s[j2].id == k);
            assert(k != k0);
        }
        if m.contains_key(k) {
            let j = choose|j: int| 0 <= j < s.len() && s[j].id == k;
            assert(j != i);
            let j2 = if j < i {
                j
            } else {
                j - 1
            };
            assert(u[j2].id == k);
        }
    }
    assert forall|k: Seq<char>| #[trigger] task_map(u).contains_key(k) implies task_map(u)[k]
        == m[k] by {
        let j = choose|j: int| 0 <= j < u.len() && u[j].id == k;
        let j2 = if j < i {
            j
        } else {
            j + 1
        };
        lemma_task_map_get(u, j);
        lemma_task_map_get(s, j2);
    }
    lemma_maps_equal(task_map(u), m);
}

/// `s` lists the tasks of `m`, each exactly once.
pub open spec fn lists_map(s: Seq<TaskView>, m: Map<Seq<char>, TaskView>) -> bool {
    &&& s.len() == m.len()
    &&& unique_ids(s)
    &&& forall|i: int| 0 <= i < s.len() ==> #[trigger] m.contains_key(s[i].id) && m[s[i].id] == s[i]
    &&& forall|k: Seq<char>| #[trigger]
        m.contains_key(k) ==> exists|i: int| 0 <= i < s.len() && s[i].id == k
}

proof fn lemma_lists_task_map(s: Seq<TaskView>)
    requires
        unique_ids(s),
    ensures
        lists_map(s, task_map(s)),
{
    lemma_task_map_len(s);
    lemma_task_map_dom(s);
    assert forall|i: int| 0 <= i < s.len() implies #[trigger] task_map(s).contains_key(s[i].id)
        && task_map(s)[s[i].id] == s[i] by {
        lemma_task_map_get(s, i);
    }
}

/// Counts of tasks by status class.
#[derive(Debug, Clone, Copy, PartialEq, Eq, Structural)]
pub struct GlobalStats {
    pub active: usize,
    pub waiting: usize,
    pub stopped: usize,
    pub speed_limit: u64,
}

/// The status classes that the RPC interface reports.
#[derive(Debug, Clone, Copy, PartialEq, Eq, Structural)]
pub enum StatusClass {
    /// Downloading.
    Active,
    /// Pending.
    Waiting,
    /// Completed or failed.
    Stopped,
    /// Completed, failed or paused: what the global statistics count as
    /// stopped.
    Inactive,
}

pub open spec fn in_class(s: TaskStatus, c: StatusClass) -> bool {
    ||| c == StatusClass::Active && s == TaskStatus::Downloading
    ||| c == StatusClass::Waiting && s == TaskStatus::Pending
    ||| c == StatusClass::Stopped && (s == TaskStatus::Completed || s == TaskStatus::Error)
    ||| c == StatusClass::Inactive && (s == TaskStatus::Completed || s == TaskStatus::Error || s
        == TaskStatus::Paused)
}

/// `s` lists the tasks of `m` whose status is in class `c`, each exactly once.
pub open spec fn lists_class(s: Seq<TaskView>, m: Map<Seq<char>, TaskView>, c: StatusClass) -> bool {
    &&& unique_ids(s)
    &&& members_in_class(s, m, c)
    &&& covers_class(s, m, c)
}

/// Every task of `s` is the task of `m` under its id, and in class `c`.
pub open spec fn members_in_class(s: Seq<TaskView>, m: Map<Seq<char>, TaskView>, c: StatusClass) -> bool {
    &&& forall|i: int| 0 <= i < s.len() ==> #[trigger] m.contains_key(s[i].id) && m[s[i].id] == s[i]
    &&& forall|i: int| 0 <= i < s.len() ==> in_class(#[trigger] s[i].status, c)
}

/// Every task of `m` in class `c` has its id in `s`.
pub open spec fn covers_class(s: Seq<TaskView>, m: Map<Seq<char>, TaskView>, c: StatusClass) -> bool {
    forall|k: Seq<char>| #[trigger]
        m.contains_key(k) && in_class(m[k].status, c) ==> exists|i: int|
            0 <= i < s.len() && s[i].id == k
}

/// The tasks of `s` whose status is in class `c`, in order.
pub open spec fn select_class(s: Seq<TaskView>, c: StatusClass) -> Seq<TaskView>
    decreases s.len(),
{
    if s.len() == 0 {
        Seq::empty()
    } else if in_class(s.last().status, c) {
        select_class(s.drop_last(), c).push(s.last())
    } else {
        select_class(s.drop_last(), c)
    }
}

proof fn lemma_select_members(s: Seq<TaskView>, c: StatusClass)
    ensures
        forall|i: int| 0 <= i < select_class(s, c).len() ==> s.contains(
            #[trigger] select_class(s, c)[i],
        ) && in_class(select_class(s, c)[i].status, c),
        forall|k: int| 0 <= k < s.len() && in_class(s[k].status, c) ==> select_class(
            s,
            c,
        ).contains(#[trigger] s[k]),
    decreases s.len(),
{
    if s.len() > 0 {
        let p = s.drop_last();
        lemma_select_members(p, c);
        let sel = select_class(s, c);
        let psel = select_class(p, c);
        assert forall|i: int| 0 <= i < sel.len() implies s.contains(#[trigger] sel[i]) && in_class(
            sel[i].status,
            c,
        ) by {
            if i < psel.len() {
                assert(sel[i] == psel[i]);
                let k = choose|k: int| 0 <= k < p.len() && p[k] == psel[i];
                assert(s[k] == sel[i]);
            } else {
                assert(s[s.len() - 1] == sel[i]);
            }
        }
        assert forall|k: int| 0 <= k < s.len() && in_class(s[k].status, c) implies sel.contains(
            #[trigger] s[k],
        ) by {
            if k < s.len() - 1 {
                assert(p[k] == s[k]);
                let i = choose|i: int| 0 <= i < psel.len() && psel[i] == p[k];
                assert(sel[i] == s[k]);
            } else {
                assert(sel[sel.len() - 1] == s[k]);
            }
        }
    }
}

proof fn lemma_select_unique(s: Seq<TaskView>, c: StatusClass)
    requires
        unique_ids(s),
    ensures
        unique_ids(select_class(s, c)),
    decreases s.len(),
{
    if s.len() > 0 {
        let p = s.drop_last();
        assert(unique_ids(p)) by {
            assert forall|a: int, b: int| 0 <= a < b < p.len() implies #[trigger] p[a].id
                != #[trigger] p[b].id by {
                assert(s[a].id != s[b].id);
            }
        }
        lemma_select_unique(p, c);
        lemma_select_members(p, c);
        let sel = select_class(s, c);
        let psel = select_class(p, c);
        if in_class(s.last().status, c) {
            assert forall|a: int, b: int| 0 <= a < b < sel.len() implies #[trigger] sel[a].id
                != #[trigger] sel[b].id by {
                if b == sel.len() - 1 {
                    assert(sel[a] == psel[a]);
                    let k = choose|k: int| 0 <= k < p.len() && p[k] == psel[a];
                    assert(s[k].id != s[s.len() - 1].id);
                } else {
                    assert(psel[a].id != psel[b].id);
                }
            }
        }
    }
}

proof fn lemma_select_elem(s: Seq<TaskView>, c: StatusClass, i: int)
    requires
        unique_ids(s),
        0 <= i < select_class(s, c).len(),
    ensures
        task_map(s).contains_key(select_class(s, c)[i].id),
        task_map(s)[select_class(s, c)[i].id] == select_class(s, c)[i],
        in_class(select_class(s, c)[i].status, c),
{
    lemma_select_members(s, c);
    let x = select_class(s, c)[i];
    assert(s.contains(x));
    let k = choose|k: int| 0 <= k < s.len() && s[k] == x;
    lemma_task_map_get(s, k);
}

proof fn lemma_select_covers(s: Seq<TaskView>, c: StatusClass, key: Seq<char>)
    requires
        unique_ids(s),
        task_map(s).contains_key(key),
        in_class(task_map(s)[key].status, c),
    ensures
        exists|i: int| 0 <= i < select_class(s, c).len() && select_class(s, c)[i].id == key,
{
    lemma_select_members(s, c);
    lemma_task_map_dom(s);
    let k = choose|k: int| 0 <= k < s.len() && s[k].id == key;
    lemma_task_map_get(s, k);
    assert(select_class(s, c).contains(s[k]));
    let sel = select_class(s, c);
    let i = choose|i: int| 0 <= i < sel.len() && sel[i] == s[k];
    assert(sel[i].id == key);
}

proof fn lemma_select_lists(s: Seq<TaskView>, c: StatusClass)
    requires
        unique_ids(s),
    ensures
        lists_class(select_class(s, c), task_map(s), c),
{
    lemma_select_unique(s, c);
    let sel = select_class(s, c);
    let m = task_map(s);
    assert forall|i: int| 0 <= i < sel.len() implies #[trigger] m.contains_key(sel[i].id)
        && m[sel[i].id] == sel[i] by {
        lemma_select_elem(s, c, i);
    }
    assert forall|i: int| 0 <= i < sel.len() implies in_class(#[trigger] sel[i].status, c) by {
        lemma_select_elem(s, c, i);
    }
    assert forall|key: Seq<char>| #[trigger] m.contains_key(key) && in_class(m[key].status, c)
        implies exists|i: int| 0 <= i < sel.len() && sel[i].id == key by {
        lemma_select_covers(s, c, key);
    }
    assert(covers_class(sel, m, c));
}

/// Number of tasks of `s` whose status is in class `c`.
pub open spec fn count_class(s: Seq<TaskView>, c: StatusClass) -> nat
    decreases s.len(),
{
    if s.len() == 0 {
        0
    } else {
        count_class(s.drop_last(), c) + if in_class(s.last().status, c) {
            1nat
        } else {
            0nat
        }
    }
}

proof fn lemma_classes_partition(s: Seq<TaskView>)
    ensures
        count_class(s, StatusClass::Active) + count_class(s, StatusClass::Waiting) + count_class(
            s,
            StatusClass::Inactive,
        ) == s.len(),
        count_class(s, StatusClass::Active) <= s.len(),
        count_class(s, StatusClass::Waiting) <= s.len(),
        count_class(s, StatusClass::Inactive) <= s.len(),
    decreases s.len(),
{
    if s.len() > 0 {
        lemma_classes_partition(s.drop_last());
    }
}

/// Number of tasks of `m` whose status is in class `c`.
pub open spec fn class_size(m: Map<Seq<char>, TaskView>, c: StatusClass) -> nat {
    m.dom().filter(|k: Seq<char>| in_class(m[k].status, c)).len()
}

proof fn lemma_count_is_selection(s: Seq<TaskView>, c: StatusClass)
    ensures
        count_class(s, c) == select_class(s, c).len(),
    decreases s.len(),
{
    if s.len() > 0 {
        lemma_count_is_selection(s.drop_last(), c);
    }
}

/// A listing of the tasks of class `c`, each once, is as long as the class.
proof fn lemma_listing_size(s: Seq<TaskView>, m: Map<Seq<char>, TaskView>, c: StatusClass)
    requires
        lists_class(s, m, c),
    ensures
        s.len() == class_size(m, c),
{
    let ids = s.map_values(|t: TaskView| t.id);
    assert(ids.no_duplicates()) by {
        assert forall|a: int, b: int| 0 <= a < ids.len() && 0 <= b < ids.len() && a != b implies ids[a]
            != ids[b] by {
            if a < b {
                assert(s[a].id != s[b].id);
            } else {
                assert(s[b].id != s[a].id);
            }
        }
    }
    ids.unique_seq_to_set();
    let f = m.dom().filter(|k: Seq<char>| in_class(m[k].status, c));
    assert(ids.to_set() =~= f) by {
        assert forall|k: Seq<char>| ids.to_set().contains(k) implies f.contains(k) by {
            let i = choose|i: int| 0 <= i < ids.len() && ids[i] == k;
            assert(m.contains_key(s[i].id) && m[s[i].id] == s[i]);
            assert(in_class(s[i].status, c));
        }
        assert forall|k: Seq<char>| f.contains(k) implies ids.to_set().contains(k) by {
            assert(m.contains_key(k) && in_class(m[k].status, c));
            let i = choose|i: int| 0 <= i < s.len() && s[i].id == k;
            assert(ids[i] == k);
        }
    }
}

/// The registry of tasks, one per id.
pub struct TaskTable {
    tasks: Vec<DownloadTask>,
}

impl View for TaskTable {
    type V = Map<Seq<char>, TaskView>;

    closed spec fn view(&self) -> Map<Seq<char>, TaskView> {
        task_map(views_of(self.tasks@))
    }
}

fn class_of(s: TaskStatus, c: StatusClass) -> (r: bool)
    ensures
        r == in_class(s, c),
{
    match c {
        StatusClass::Active => s == TaskStatus::Downloading,
        StatusClass::Waiting => s == TaskStatus::Pending,
        StatusClass::Stopped => s == TaskStatus::Completed || s == TaskStatus::Error,
        StatusClass::Inactive => s == TaskStatus::Completed || s == TaskStatus::Error || s
            == TaskStatus::Paused,
    }
}

impl TaskTable {
    #[verifier::type_invariant]
    closed spec fn wf(self) -> bool {
        unique_ids(views_of(self.tasks@))
    }

    /// The tasks in the order they were first registered.
    pub closed spec fn entries(self) -> Seq<TaskView> {
        views_of(self.tasks@)
    }

    pub fn new() -> (r: Self)
        ensures
            r@ == Map::<Seq<char>, TaskView>::empty(),
            r.entries().len() == 0,
    {
        let r = TaskTable { tasks: Vec::new() };
        assert(views_of(r.tasks@) =~= Seq::<TaskView>::empty());
        r
    }

    pub fn len(&self) -> (r: usize)
        ensures
            r == self@.len(),
    {
        proof {
            use_type_invariant(self);
            lemma_task_map_len(self.entries());
        }
        self.tasks.len()
    }

    fn find(&self, id: &[char]) -> (r: Option<usize>)
        ensures
            r matches Some(i) ==> i < self.entries().len() && self.entries()[i as int].id == id@,
            r is None ==> forall|j: int| 0 <= j < self.entries().len() ==> self.entries()[j].id
                != id@,
    {
        let mut i: usize = 0;
        while i < self.tasks.len()
            invariant
                i <= self.tasks@.len(),
                forall|j: int| 0 <= j < i ==> self.entries()[j].id != id@,
            decreases self.tasks@.len() - i,
        {
            let tc = chars_of(self.tasks[i].id.as_str());
            if chars_eq(tc.as_slice(), id) {
                return Some(i);
            }
            i = i + 1;
        }
        None
    }

    /// Registers `task`, replacing any task with the same id.
    pub fn insert(&mut self, task: DownloadTask)
        ensures
            final(self)@ == old(self)@.insert(task@.id, task@),
    {
        proof {
            use_type_invariant(&*self);
        }
        let idc = chars_of(task.id.as_str());
        let ghost s = views_of(self.tasks@);
        let ghost tv = task@;
        match self.find(idc.as_slice()) {
            Some(i) => {
                proof {
                    lemma_task_map_update(s, i as int, tv);
                    assert(views_of(self.tasks@.update(i as int, task)) =~= s.update(i as int, tv));
                }
                let mut tasks: Vec<DownloadTask> = Vec::new();
                std::mem::swap(&mut tasks, &mut self.tasks);
                tasks.set(i, task);
                self.tasks = tasks;
            },
            None => {
                proof {
                    assert(views_of(self.tasks@.push(task)) =~= s.push(tv));
                    assert(s.push(tv).drop_last() =~= s);
                    assert(unique_ids(s.push(tv)));
                }
                let mut tasks: Vec<DownloadTask> = Vec::new();
                std::mem::swap(&mut tasks, &mut self.tasks);
                tasks.push(task);
                self.tasks = tasks;
            },
        }
    }

    /// A copy of the task registered under `id`.
    pub fn get(&self, id: &str) -> (r: Option<DownloadTask>)
        ensures
            r is Some <==> self@.contains_key(id@),
            r matches Some(t) ==> t@ == self@[id@] && t@.id == id@,
    {
        proof {
            use_type_invariant(self);
            lemma_task_map_dom(self.entries());
        }
        let idc = chars_of(id);
        match self.find(idc.as_slice()) {
            Some(i) => {
                proof {
                    lemma_task_map_get(self.entries(), i as int);
                }
                Some(self.tasks[i].duplicate())
            },
            None => None,
        }
    }

    /// Unregisters the task with `id`, handing it back.
    pub fn remove(&mut self, id: &str) -> (r: Option<DownloadTask>)
        ensures
            final(self)@ == old(self)@.remove(id@),
            r is Some <==> old(self)@.contains_key(id@),
            r matches Some(t) ==> t@ == old(self)@[id@] && t@.id == id@,
    {
        proof {
            use_type_invariant(&*self);
            lemma_task_map_dom(self.entries());
        }
        let idc = chars_of(id);
        let ghost s = views_of(self.tasks@);
        match self.find(idc.as_slice()) {
            Some(i) => {
                proof {
                    lemma_task_map_get(s, i as int);
                    lemma_task_map_remove(s, i as int);
                    assert(views_of(self.tasks@.remove(i as int)) =~= s.remove(i as int));
                }
                let mut tasks: Vec<DownloadTask> = Vec::new();
                std::mem::swap(&mut tasks, &mut self.tasks);
                let t = tasks.remove(i);
                self.tasks = tasks;
                Some(t)
            },
            None => {
                assert(task_map(s).remove(id@) =~= task_map(s));
                None
            },
        }
    }

    /// Copies of all registered tasks, each once.
    pub fn list(&self) -> (r: Vec<DownloadTask>)
        ensures
            lists_map(views_of(r@), self@),
    {
        proof {
            use_type_invariant(self);
            lemma_lists_task_map(self.entries());
        }
        let mut r: Vec<DownloadTask> = Vec::new();
        let mut i: usize = 0;
        while i < self.tasks.len()
            invariant
                i <= self.tasks@.len(),
                views_of(r@) =~= self.entries().take(i as int),
            decreases self.tasks@.len() - i,
        {
            let ghost before = views_of(r@);
            let t = self.tasks[i].duplicate();
            r.push(t);
            assert(views_of(r@) =~= before.push(self.entries()[i as int]));
            i = i + 1;
        }
        assert(self.entries().take(i as int) =~= self.entries());
        r
    }

    /// Copies of the registered tasks whose status is in class `c`, each once.
    pub fn list_class(&self, c: StatusClass) -> (r: Vec<DownloadTask>)
        ensures
            lists_class(views_of(r@), self@, c),
    {
        proof {
            use_type_invariant(self);
        }
        let ghost e = self.entries();
        let mut r: Vec<DownloadTask> = Vec::new();
        let mut i: usize = 0;
        while i < self.tasks.len()
            invariant
                i <= self.tasks@.len(),
                e == self.entries(),
                views_of(r@) == select_class(e.take(i as int), c),
            decreases self.tasks@.len() - i,
        {
            let ghost before = views_of(r@);
            assert(e.take(i + 1).drop_last() =~= e.take(i as int));
            assert(e.take(i + 1).last() == e[i as int]);
            if class_of(self.tasks[i].status, c) {
                let t = self.tasks[i].duplicate();
                r.push(t);
                assert(views_of(r@) =~= before.push(e[i as int]));
            }
            i = i + 1;
        }
        proof {
            assert(e.take(i as int) =~= e);
            lemma_select_lists(e, c);
        }
        r
    }

    /// Counts of the registered tasks: downloading, pending, and completed,
    /// failed or paused, with the speed limit in force.
    pub fn global_stats(&self, speed_limit: u64) -> (r: GlobalStats)
        ensures
            r.active == count_class(self.entries(), StatusClass::Active),
            r.waiting == count_class(self.entries(), StatusClass::Waiting),
            r.stopped == count_class(self.entries(), StatusClass::Inactive),
            r.active + r.waiting + r.stopped == self@.len(),
            r.active == class_size(self@, StatusClass::Active),
            r.waiting == class_size(self@, StatusClass::Waiting),
            r.stopped == class_size(self@, StatusClass::Inactive),
            r.speed_limit == speed_limit,
    {
        proof {
            use_type_invariant(self);
            lemma_task_map_len(self.entries());
            lemma_select_lists(self.entries(), StatusClass::Active);
            lemma_select_lists(self.entries(), StatusClass::Waiting);
            lemma_select_lists(self.entries(), StatusClass::Inactive);
            lemma_listing_size(select_class(self.entries(), StatusClass::Active), self@, StatusClass::Active);
            lemma_listing_size(select_class(self.entries(), StatusClass::Waiting), self@, StatusClass::Waiting);
            lemma_listing_size(select_class(self.entries(), StatusClass::Inactive), self@, StatusClass::Inactive);
            lemma_count_is_selection(self.entries(), StatusClass::Active);
            lemma_count_is_selection(self.entries(), StatusClass::Waiting);
            lemma_count_is_selection(self.entries(), StatusClass::Inactive);
        }
        let mut active: usize = 0;
        let mut waiting: usize = 0;
        let mut stopped: usize = 0;
        let mut i: usize = 0;
        while i < self.tasks.len()
            invariant
                i <= self.tasks@.len(),
                active == count_class(self.entries().take(i as int), StatusClass::Active),
                waiting == count_class(self.entries().take(i as int), StatusClass::Waiting),
                stopped == count_class(self.entries().take(i as int), StatusClass::Inactive),
            decreases self.tasks@.len() - i,
        {
            proof {
                let p = self.entries().take(i + 1);
                assert(p.drop_last() =~= self.entries().take(i as int));
                lemma_classes_partition(p);
            }
            let st = self.tasks[i].status;
            if class_of(st, StatusClass::Active) {
                active = active + 1;
            } else if class_of(st, StatusClass::Waiting) {
                waiting = waiting + 1;
            } else if class_of(st, StatusClass::Inactive) {
                stopped = stopped + 1;
            }
            i = i + 1;
        }
        proof {
            assert(self.entries().take(i as int) =~= self.entries());
            lemma_classes_partition(self.entries());
        }
        GlobalStats { active, waiting, stopped, speed_limit }
    }

    /// Sets the status of the task with `id`; false when there is none.
    pub fn set_status(&mut self, id: &str, status: TaskStatus) -> (found: bool)
        ensures
            found == old(self)@.contains_key(id@),
            found ==> final(self)@ == old(self)@.insert(
                id@,
                TaskView { status, ..old(self)@[id@] },
            ),
            !found ==> final(self)@ == old(self)@,
    {
        match self.remove(id) {
            Some(mut t) => {
                t.status = status;
                self.insert(t);
                assert(old(self)@.remove(id@).insert(id@, TaskView { status, ..old(self)@[id@] })
                    =~= old(self)@.insert(id@, TaskView { status, ..old(self)@[id@] }));
                true
            },
            None => false,
        }
    }

    /// Records a failure of the task with `id`: status `Error` and the message.
    pub fn set_error(&mut self, id: &str, message: String) -> (found: bool)
        ensures
            found == old(self)@.contains_key(id@),
            found ==> final(self)@ == old(self)@.insert(
                id@,
                TaskView {
                    status: TaskStatus::Error,
                    error_message: Some(message@),
                    ..old(self)@[id@]
                },
            ),
            !found ==> final(self)@ == old(self)@,
    {
        match self.remove(id) {
            Some(mut t) => {
                t.status = TaskStatus::Error;
                t.error_message = Some(message);
                self.insert(t);
                assert(old(self)@.remove(id@).insert(
                    id@,
                    TaskView {
                        status: TaskStatus::Error,
                        error_message: Some(message@),
                        ..old(self)@[id@]
                    },
                ) =~= old(self)@.insert(
                    id@,
                    TaskView {
                        status: TaskStatus::Error,
                        error_message: Some(message@),
                        ..old(self)@[id@]
                    },
                ));
                true
            },
            None => false,
        }
    }

    /// Replaces the segments of the task with `id`.
    pub fn set_segments(&mut self, id: &str, segments: Vec<Segment>) -> (found: bool)
        ensures
            found == old(self)@.contains_key(id@),
            found ==> final(self)@ == old(self)@.insert(
                id@,
                TaskView { segments: segments@, ..old(self)@[id@] },
            ),
            !found ==> final(self)@ == old(self)@,
    {
        match self.remove(id) {
            Some(mut t) => {
                t.segments = segments;
                self.insert(t);
                assert(old(self)@.remove(id@).insert(
                    id@,
                    TaskView { segments: segments@, ..old(self)@[id@] },
                ) =~= old(self)@.insert(id@, TaskView { segments: segments@, ..old(self)@[id@] }));
                true
            },
            None => false,
        }
    }
}

/// After a task is registered, its id reads back that task, and every other
/// id reads what it read before.
pub proof fn lemma_read_after_insert(m: Map<Seq<char>, TaskView>, t: TaskView, id: Seq<char>)
    ensures
        m.insert(t.id, t).contains_key(t.id),
        m.insert(t.id, t)[t.id] == t,
        id != t.id ==> m.insert(t.id, t).contains_key(id) == m.contains_key(id),
        id != t.id && m.contains_key(id) ==> m.insert(t.id, t)[id] == m[id],
{
}

/// After a task is removed, its id reads nothing, and every other id reads
/// what it read before.
pub proof fn lemma_read_after_remove(m: Map<Seq<char>, TaskView>, removed: Seq<char>, id: Seq<char>)
    ensures
        !m.remove(removed).contains_key(removed),
        id != removed ==> m.remove(removed).contains_key(id) == m.contains_key(id),
        id != removed && m.contains_key(id) ==> m.remove(removed)[id] == m[id],
{
}

} // verus!
