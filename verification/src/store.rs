//! The in-memory task collection and its operations: finding a task by id,
//! adding with the next free id, completing, and removing.

use vstd::prelude::*;
use crate::{Task, TaskView, views};
use crate::strutil::dec_digits;
use crate::strutil::u32_to_string;

verus! {

/// All ids within the collection are distinct.
pub open spec fn ids_unique(ts: Seq<TaskView>) -> bool {
    forall|i: int, j: int| 0 <= i < j < ts.len() ==> ts[i].id != ts[j].id
}

/// Some task in the collection carries the given id.
pub open spec fn contains_id(ts: Seq<TaskView>, id: u32) -> bool {
    exists|i: int| 0 <= i < ts.len() && ts[i].id == id
}

/// The index of the first task carrying the given id, if any.
pub open spec fn spec_find(ts: Seq<TaskView>, id: u32) -> Option<int>
    decreases ts.len(),
{
    if ts.len() == 0 {
        None
    } else if ts[0].id == id {
        Some(0)
    } else {
        match spec_find(ts.drop_first(), id) {
            None => None,
            Some(k) => Some(k + 1),
        }
    }
}

/// What [`spec_find`] returns: the first index with the id, or nothing
/// when no task carries it.
pub proof fn lemma_spec_find(ts: Seq<TaskView>, id: u32)
    ensures
        spec_find(ts, id) is None ==> !contains_id(ts, id),
        spec_find(ts, id) matches Some(k) ==> 0 <= k < ts.len() && ts[k].id == id && (forall|j: int|
            0 <= j < k ==> ts[j].id != id),
    decreases ts.len(),
{
    if ts.len() > 0 {
        lemma_spec_find(ts.drop_first(), id);
        if ts[0].id != id {
            match spec_find(ts.drop_first(), id) {
                None => {
                    assert(!contains_id(ts.drop_first(), id));
                    assert forall|i: int| 0 <= i < ts.len() implies ts[i].id != id by {
                        if i > 0 {
                            assert(ts.drop_first()[i - 1] == ts[i]);
                        }
                    }
                },
                Some(k1) => {
                    assert(ts.drop_first()[k1] == ts[k1 + 1]);
                    assert forall|j: int| 0 <= j < k1 + 1 implies ts[j].id != id by {
                        if j > 0 {
                            assert(ts.drop_first()[j - 1] == ts[j]);
                        }
                    }
                },
            }
        }
    }
}

/// The converse direction: a first index with the id pins down `spec_find`.
pub proof fn lemma_spec_find_at(ts: Seq<TaskView>, id: u32, k: int)
    requires
        0 <= k < ts.len(),
        ts[k].id == id,
        forall|j: int| 0 <= j < k ==> ts[j].id != id,
    ensures
        spec_find(ts, id) == Some(k),
    decreases ts.len(),
{
    if k > 0 {
        lemma_spec_find_at(ts.drop_first(), id, k - 1);
    }
}

/// `spec_find` looks only at ids: collections with the same ids agree on it.
pub proof fn lemma_spec_find_same_ids(a: Seq<TaskView>, b: Seq<TaskView>, id: u32)
    requires
        a.len() == b.len(),
        forall|i: int| 0 <= i < a.len() ==> a[i].id == b[i].id,
    ensures
        spec_find(a, id) == spec_find(b, id),
    decreases a.len(),
{
    if a.len() > 0 {
        assert forall|i: int| 0 <= i < a.drop_first().len() implies #[trigger] a.drop_first()[i].id
            == b.drop_first()[i].id by {
            assert(a.drop_first()[i] == a[i + 1]);
            assert(b.drop_first()[i] == b[i + 1]);
        }
        lemma_spec_find_same_ids(a.drop_first(), b.drop_first(), id);
    }
}

/// The largest id in the collection, zero when it is empty.
pub open spec fn max_id(ts: Seq<TaskView>) -> nat
    decreases ts.len(),
{
    if ts.len() == 0 {
        0
    } else if ts.last().id as nat > max_id(ts.drop_last()) {
        ts.last().id as nat
    } else {
        max_id(ts.drop_last())
    }
}

/// The collection after an `add`: the new task appended, with the next id,
/// the given description, and not yet completed.
pub open spec fn spec_add(ts: Seq<TaskView>, description: Seq<char>) -> Seq<TaskView> {
    ts.push(TaskView { id: (max_id(ts) + 1) as u32, description, completed: false })
}

/// The collection and report after a `complete`: the first task with the id
/// gains `completed`, unless it already had it or no task carries the id.
pub open spec fn spec_complete(ts: Seq<TaskView>, id: u32) -> (Seq<TaskView>, CompleteOutcome) {
    match spec_find(ts, id) {
        None => (ts, CompleteOutcome::NotFound),
        Some(k) => if ts[k].completed {
            (ts, CompleteOutcome::AlreadyComplete)
        } else {
            (
                ts.update(k, TaskView { completed: true, ..ts[k] }),
                CompleteOutcome::Completed,
            )
        },
    }
}

/// The collection and report after a `remove`: the first task with the id
/// leaves; a missing id leaves the collection unchanged.
pub open spec fn spec_remove(ts: Seq<TaskView>, id: u32) -> (Seq<TaskView>, RemoveOutcome) {
    match spec_find(ts, id) {
        None => (ts, RemoveOutcome::NotFound),
        Some(k) => (ts.remove(k), RemoveOutcome::Removed),
    }
}

/// What a `complete` operation reported.
#[derive(PartialEq, Eq, Structural, Clone, Copy, Debug)]
pub enum CompleteOutcome {
    Completed,
    AlreadyComplete,
    NotFound,
}

/// What a `remove` operation reported.
#[derive(PartialEq, Eq, Structural, Clone, Copy, Debug)]
pub enum RemoveOutcome {
    Removed,
    NotFound,
}

/// The index of the first task carrying `id`, if any.
pub fn find_task_index(tasks: &Vec<Task>, id: u32) -> (r: Option<usize>)
    ensures
        r matches Some(k) ==> spec_find(views(tasks@), id) == Some(k as int),
        r is None ==> spec_find(views(tasks@), id) is None,
{
    let ghost vs = views(tasks@);
    let mut i: usize = 0;
    while i < tasks.len()
        invariant
            i <= tasks.len(),
            vs == views(tasks@),
            vs.len() == tasks@.len(),
            forall|j: int| 0 <= j < i ==> vs[j].id != id,
        decreases tasks.len() - i,
    {
        if tasks[i].id == id {
            proof {
                lemma_spec_find_at(vs, id, i as int);
            }
            return Some(i);
        }
        i = i + 1;
    }
    proof {
        lemma_spec_find(vs, id);
        match spec_find(vs, id) {
            Some(k) => {
                assert(vs[k].id == id);
                assert(false);
            },
            None => {},
        }
    }
    None
}

/// Appends a new task with the next free id (one above the largest id in
/// use, or 1 on an empty collection) and reports the id; reports nothing
/// and leaves the collection unchanged only when the id space is exhausted.
pub fn add_task(tasks: &mut Vec<Task>, description: String) -> (r: Option<u32>)
    ensures
        max_id(views(old(tasks)@)) < u32::MAX ==> ({
            &&& r == Some((max_id(views(old(tasks)@)) + 1) as u32)
            &&& views(final(tasks)@) == spec_add(views(old(tasks)@), description@)
        }),
        max_id(views(old(tasks)@)) >= u32::MAX ==> r is None && final(tasks)@ == old(tasks)@,
{
    let ghost vs = views(old(tasks)@);
    let mut m: u32 = 0;
    let mut i: usize = 0;
    while i < tasks.len()
        invariant
            i <= tasks.len(),
            tasks@ == old(tasks)@,
            vs == views(tasks@),
            vs.len() == tasks@.len(),
            m as nat == max_id(vs.take(i as int)),
        decreases tasks.len() - i,
    {
        proof {
            assert(vs.take(i + 1).drop_last() =~= vs.take(i as int));
            assert(vs.take(i + 1).last() == vs[i as int]);
        }
        if tasks[i].id > m {
            m = tasks[i].id;
        }
        i = i + 1;
    }
    assert(vs.take(tasks@.len() as int) =~= vs);
    if m == u32::MAX {
        return None;
    }
    let id = m + 1;
    tasks.push(Task { id, description, completed: false });
    proof {
        assert(views(final(tasks)@) =~= spec_add(vs, description@));
    }
    Some(id)
}

/// Marks the first task with the given id complete, as [`spec_complete`]
/// describes, and reports what happened.
pub fn complete_task(tasks: &mut Vec<Task>, id: u32) -> (r: CompleteOutcome)
    ensures
        (views(final(tasks)@), r) == spec_complete(views(old(tasks)@), id),
{
    let ghost vs = views(old(tasks)@);
    match find_task_index(tasks, id) {
        None => CompleteOutcome::NotFound,
        Some(k) => {
            proof {
                lemma_spec_find(vs, id);
            }
            if tasks[k].completed {
                CompleteOutcome::AlreadyComplete
            } else {
                let t = Task {
                    id: tasks[k].id,
                    description: tasks[k].description.clone(),
                    completed: true,
                };
                proof {
                    assert(t@ == TaskView { completed: true, ..vs[k as int] });
                }
                tasks[k] = t;
                proof {
                    assert(views(final(tasks)@) =~= vs.update(
                        k as int,
                        TaskView { completed: true, ..vs[k as int] },
                    ));
                }
                CompleteOutcome::Completed
            }
        },
    }
}

/// Removes the first task with the given id, as [`spec_remove`] describes,
/// and reports what happened. A missing id leaves the collection unchanged.
pub fn remove_task(tasks: &mut Vec<Task>, id: u32) -> (r: RemoveOutcome)
    ensures
        (views(final(tasks)@), r) == spec_remove(views(old(tasks)@), id),
{
    let ghost vs = views(old(tasks)@);
    match find_task_index(tasks, id) {
        None => RemoveOutcome::NotFound,
        Some(k) => {
            proof {
                lemma_spec_find(vs, id);
            }
            tasks.remove(k);
            proof {
                assert(views(final(tasks)@) =~= vs.remove(k as int));
            }
            RemoveOutcome::Removed
        },
    }
}

/// One line of the `list` report: `<id>. [x|  ] <description>`.
pub open spec fn spec_task_line(t: TaskView) -> Seq<char> {
    dec_digits(t.id as nat) + seq!['.', ' '] + (if t.completed {
        seq!['[', 'x', ']']
    } else {
        seq!['[', ' ', ']']
    }) + seq![' '] + t.description
}

/// Renders one task as its listing line.
pub fn render_task_line(t: &Task) -> (s: String)
    ensures
        s@ == spec_task_line(t@),
{
    let mut s = u32_to_string(t.id);
    s.append(". ");
    if t.completed {
        s.append("[x]");
    } else {
        s.append("[ ]");
    }
    s.append(" ");
    s.append(t.description.as_str());
    proof {
        reveal_strlit(". ");
        reveal_strlit("[x]");
        reveal_strlit("[ ]");
        reveal_strlit(" ");
        assert(s@ =~= spec_task_line(t@));
    }
    s
}

/// Law: in a collection built by adds alone (the task at index `k` carries
/// id `k + 1`), the next add assigns id `len + 1` — the count of adds so
/// far plus one — which is strictly larger than every id already assigned,
/// and the property is preserved, so ids over any sequence of adds are
/// strictly increasing and count the adds, starting at 1.
pub proof fn lemma_add_ids_count_adds(ts: Seq<TaskView>, description: Seq<char>)
    requires
        forall|k: int| 0 <= k < ts.len() ==> #[trigger] ts[k].id == k + 1,
        ts.len() < u32::MAX,
    ensures
        max_id(ts) == ts.len(),
        spec_add(ts, description).last().id == ts.len() + 1,
        forall|k: int| 0 <= k < ts.len() ==> #[trigger] ts[k].id < spec_add(
            ts,
            description,
        ).last().id,
        forall|k: int|
            0 <= k < spec_add(ts, description).len() ==> (#[trigger] spec_add(ts, description)[k]).id
                == k + 1,
{
    lemma_max_id_sequential(ts);
    let added = spec_add(ts, description);
    assert forall|k: int| 0 <= k < added.len() implies #[trigger] added[k].id == k + 1 by {
        if k < ts.len() {
            assert(added[k] == ts[k]);
        }
    }
}

/// A collection whose task at index `k` carries id `k + 1` has largest id
/// equal to its length.
pub proof fn lemma_max_id_sequential(ts: Seq<TaskView>)
    requires
        forall|k: int| 0 <= k < ts.len() ==> #[trigger] ts[k].id == k + 1,
    ensures
        max_id(ts) == ts.len(),
    decreases ts.len(),
{
    if ts.len() > 0 {
        assert(forall|k: int|
            0 <= k < ts.drop_last().len() ==> #[trigger] ts.drop_last()[k].id == k + 1);
        lemma_max_id_sequential(ts.drop_last());
    }
}

/// Law: completing the same id twice leaves the task completed after both
/// calls, and the second call reports "already complete" rather than a
/// failure; a second call changes nothing further.
pub proof fn lemma_complete_idempotent(ts: Seq<TaskView>, id: u32)
    requires
        contains_id(ts, id),
    ensures
        ({
            let (ts1, r1) = spec_complete(ts, id);
            let (ts2, r2) = spec_complete(ts1, id);
            &&& ts2 == ts1
            &&& r2 == CompleteOutcome::AlreadyComplete
            &&& spec_find(ts1, id) matches Some(k) && ts1[k].completed
            &&& spec_find(ts2, id) matches Some(k) && ts2[k].completed
        }),
{
    lemma_spec_find(ts, id);
    if spec_find(ts, id) is None {
        assert(false);
    }
    let k = spec_find(ts, id)->Some_0;
    let (ts1, r1) = spec_complete(ts, id);
    assert(ts1.len() == ts.len());
    assert(forall|i: int| 0 <= i < ts.len() ==> ts1[i].id == ts[i].id);
    lemma_spec_find_same_ids(ts, ts1, id);
    assert(spec_find(ts1, id) == Some(k));
    assert(ts1[k].completed);
}

} // verus!
