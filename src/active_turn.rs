//! The registry of tasks running for the active turn, in insertion order.
use vstd::prelude::*;
use std::sync::Arc;
use indexmap::IndexMap;
use tokio::sync::{Mutex, Notify};
use tokio_util::sync::CancellationToken;
use tokio_util::task::AbortOnDropHandle;
use crate::turn::TurnState;

verus! {

#[verifier::external_type_specification]
#[verifier::external_body]
#[verifier::reject_recursive_types(K)]
#[verifier::reject_recursive_types(V)]
#[verifier::reject_recursive_types(S)]
pub struct ExIndexMap<K, V, S>(indexmap::IndexMap<K, V, S>);

#[verifier::external_type_specification]
#[verifier::external_body]
#[verifier::reject_recursive_types(T)]
pub struct ExMutex<T: ?Sized>(tokio::sync::Mutex<T>);

#[verifier::external_type_specification]
#[verifier::external_body]
pub struct ExNotify(tokio::sync::Notify);

#[verifier::external_type_specification]
#[verifier::external_body]
pub struct ExCancellationToken(tokio_util::sync::CancellationToken);

#[verifier::external_type_specification]
#[verifier::external_body]
#[verifier::reject_recursive_types(T)]
pub struct ExAbortOnDropHandle<T>(tokio_util::task::AbortOnDropHandle<T>);

/// Declared because the `Future` impl of `AbortOnDropHandle` names it:
/// without it Verus refuses the handle type.
#[verifier::external_type_specification]
#[verifier::external_body]
pub struct ExJoinError(tokio::task::JoinError);

#[derive(Clone, Copy, Debug, PartialEq, Eq, Structural)]
pub enum TaskKind {
    Regular,
    Review,
    Compact,
}

/// The context a task runs under.
#[derive(Clone, Debug, PartialEq, Eq)]
pub struct TurnContext {
    pub sub_id: String,
    pub cwd: String,
}

/// One spawned unit of work of the turn.
pub struct RunningTask {
    pub done: Arc<Notify>,
    pub kind: TaskKind,
    pub cancellation_token: CancellationToken,
    pub handle: Arc<AbortOnDropHandle<()>>,
    pub turn_context: Arc<TurnContext>,
}

/// The key a task is registered under: the id of its sub-turn.
pub open spec fn task_key(task: RunningTask) -> Seq<char> {
    task.turn_context.sub_id@
}

/// The entries of a task map, in its order.
pub uninterp spec fn task_entries(m: IndexMap<String, RunningTask>) -> Seq<(Seq<char>, RunningTask)>;

pub open spec fn key_at(entries: Seq<(Seq<char>, RunningTask)>, key: Seq<char>, i: int) -> bool {
    0 <= i < entries.len() && entries[i].0 == key
}

/// The entries after inserting `task` under `key`: an existing key keeps its
/// place and takes the new task, a new key goes last.
pub open spec fn entries_after_insert(
    entries: Seq<(Seq<char>, RunningTask)>,
    key: Seq<char>,
    task: RunningTask,
) -> Seq<(Seq<char>, RunningTask)> {
    if exists|i: int| key_at(entries, key, i) {
        entries.update(choose|i: int| key_at(entries, key, i), (key, task))
    } else {
        entries.push((key, task))
    }
}

/// The entries after removing `key`: the entries after it move up one
/// place, keeping their order.
pub open spec fn entries_after_remove(
    entries: Seq<(Seq<char>, RunningTask)>,
    key: Seq<char>,
) -> Seq<(Seq<char>, RunningTask)> {
    if exists|i: int| key_at(entries, key, i) {
        entries.remove(choose|i: int| key_at(entries, key, i))
    } else {
        entries
    }
}

pub open spec fn task_keys_distinct(entries: Seq<(Seq<char>, RunningTask)>) -> bool {
    forall|i: int, j: int|
        0 <= i < entries.len() && 0 <= j < entries.len() && i != j ==> entries[i].0
            != entries[j].0
}

/// Relies on `IndexMap::new`: a new map is empty.
#[verifier::external_body]
fn new_task_map() -> (r: IndexMap<String, RunningTask>)
    ensures
        task_entries(r) == Seq::<(Seq<char>, RunningTask)>::empty(),
{
    IndexMap::new()
}

/// Relies on `IndexMap::insert`: an equivalent key keeps its place and its
/// value is replaced and returned; otherwise the pair goes last.
#[verifier::external_body]
fn insert_task_entry(m: &mut IndexMap<String, RunningTask>, key: String, task: RunningTask) -> (r:
    Option<RunningTask>)
    ensures
        task_entries(*final(m)) == entries_after_insert(task_entries(*old(m)), key@, task),
        r == (if exists|i: int| key_at(task_entries(*old(m)), key@, i) {
            Some(task_entries(*old(m))[choose|i: int| key_at(task_entries(*old(m)), key@, i)].1)
        } else {
            None
        }),
{
    m.insert(key, task)
}

/// Relies on `IndexMap::shift_remove`: the pair under the key is removed and
/// the pairs after it shift down, keeping their relative order.
#[verifier::external_body]
fn shift_remove_task_entry(m: &mut IndexMap<String, RunningTask>, key: &str) -> (r: Option<
    RunningTask,
>)
    ensures
        task_entries(*final(m)) == entries_after_remove(task_entries(*old(m)), key@),
        r == (if exists|i: int| key_at(task_entries(*old(m)), key@, i) {
            Some(task_entries(*old(m))[choose|i: int| key_at(task_entries(*old(m)), key@, i)].1)
        } else {
            None
        }),
{
    m.shift_remove(key)
}

/// Relies on `IndexMap::is_empty`.
#[verifier::external_body]
fn task_map_is_empty(m: &IndexMap<String, RunningTask>) -> (r: bool)
    ensures
        r == (task_entries(*m).len() == 0),
{
    m.is_empty()
}

/// Relies on `IndexMap::drain` over the full range: every pair comes out in
/// order and the map is left empty.
#[verifier::external_body]
fn drain_task_entries(m: &mut IndexMap<String, RunningTask>) -> (r: Vec<RunningTask>)
    ensures
        task_entries(*final(m)) == Seq::<(Seq<char>, RunningTask)>::empty(),
        r@ == task_entries(*old(m)).map_values(|e: (Seq<char>, RunningTask)| e.1),
{
    m.drain(..).map(|(_, task)| task).collect()
}

/// Relies on `tokio::sync::Mutex::new`: the state is moved behind a lock.
#[verifier::external_body]
fn lock_turn_state(state: TurnState) -> (r: Mutex<TurnState>) {
    Mutex::new(state)
}

/// The currently running turn: its tasks and its shared state.
pub struct ActiveTurn {
    tasks: IndexMap<String, RunningTask>,
    pub turn_state: Arc<Mutex<TurnState>>,
}

impl ActiveTurn {
    /// The registered tasks with their keys, in registry order.
    pub closed spec fn entries(&self) -> Seq<(Seq<char>, RunningTask)> {
        task_entries(self.tasks)
    }

    /// The handle on the turn's shared state.
    pub closed spec fn shared_state(&self) -> Arc<Mutex<TurnState>> {
        self.turn_state
    }

    pub open spec fn wf(&self) -> bool {
        task_keys_distinct(self.entries())
    }

    /// Registers `task` under the id of its sub-turn. A task already under
    /// that id is no longer tracked (it is not cancelled).
    pub fn add_task(&mut self, task: RunningTask)
        requires
            old(self).wf(),
        ensures
            final(self).wf(),
            final(self).entries() == entries_after_insert(old(self).entries(), task_key(task), task),
            final(self).shared_state() == old(self).shared_state(),
    {
        let sub_id = task.turn_context.sub_id.clone();
        let ghost e = self.entries();
        let _ = insert_task_entry(&mut self.tasks, sub_id, task);
        proof {
            let n = self.entries();
            let k = task_key(task);
            if exists|i: int| key_at(e, k, i) {
                let i = choose|i: int| key_at(e, k, i);
                assert forall|a: int, b: int|
                    0 <= a < n.len() && 0 <= b < n.len() && a != b implies n[a].0 != n[b].0 by {
                    if a != i && b != i {
                        assert(n[a] == e[a] && n[b] == e[b]);
                    } else if a == i {
                        assert(n[b] == e[b]);
                    } else {
                        assert(n[a] == e[a]);
                    }
                }
            } else {
                assert forall|a: int, b: int|
                    0 <= a < n.len() && 0 <= b < n.len() && a != b implies n[a].0 != n[b].0 by {
                    if a < e.len() {
                        assert(n[a] == e[a]);
                    } else {
                        assert(!key_at(e, k, b));
                    }
                    if b < e.len() {
                        assert(n[b] == e[b]);
                    } else {
                        assert(!key_at(e, k, a));
                    }
                }
            }
        }
    }

    /// Removes the task under `sub_id`, keeping the order of the others, and
    /// says whether no task is left.
    pub fn remove_task(&mut self, sub_id: &str) -> (r: bool)
        requires
            old(self).wf(),
        ensures
            final(self).wf(),
            final(self).entries() == entries_after_remove(old(self).entries(), sub_id@),
            final(self).shared_state() == old(self).shared_state(),
            r == (final(self).entries().len() == 0),
    {
        let ghost e = self.entries();
        let _ = shift_remove_task_entry(&mut self.tasks, sub_id);
        proof {
            let n = self.entries();
            let k = sub_id@;
            if exists|i: int| key_at(e, k, i) {
                let i = choose|i: int| key_at(e, k, i);
                assert forall|a: int, b: int|
                    0 <= a < n.len() && 0 <= b < n.len() && a != b implies n[a].0 != n[b].0 by {
                    let a0 = if a < i { a } else { a + 1 };
                    let b0 = if b < i { b } else { b + 1 };
                    assert(n[a] == e[a0]);
                    assert(n[b] == e[b0]);
                }
            }
        }
        task_map_is_empty(&self.tasks)
    }

    /// Takes every task out, in registry order, leaving the registry empty.
    pub fn drain_tasks(&mut self) -> (r: Vec<RunningTask>)
        requires
            old(self).wf(),
        ensures
            final(self).wf(),
            final(self).entries() == Seq::<(Seq<char>, RunningTask)>::empty(),
            r@ == old(self).entries().map_values(|e: (Seq<char>, RunningTask)| e.1),
            final(self).shared_state() == old(self).shared_state(),
    {
        drain_task_entries(&mut self.tasks)
    }
}

impl Default for ActiveTurn {
    fn default() -> (r: Self)
        ensures
            r.wf(),
            r.entries() == Seq::<(Seq<char>, RunningTask)>::empty(),
    {
        ActiveTurn { tasks: new_task_map(), turn_state: Arc::new(lock_turn_state(TurnState::new())) }
    }
}

/// One call on the registry: `add_task` or `remove_task`.
pub enum TaskOp {
    Add(RunningTask),
    Remove(Seq<char>),
}

pub open spec fn task_op_adds(op: TaskOp) -> bool {
    match op {
        TaskOp::Add(_) => true,
        TaskOp::Remove(_) => false,
    }
}

pub open spec fn task_op_key(op: TaskOp) -> Seq<char> {
    match op {
        TaskOp::Add(t) => task_key(t),
        TaskOp::Remove(k) => k,
    }
}

/// The entries after `ops`, each applied as `add_task` and `remove_task`
/// state it.
pub open spec fn entries_after_ops(
    entries: Seq<(Seq<char>, RunningTask)>,
    ops: Seq<TaskOp>,
) -> Seq<(Seq<char>, RunningTask)>
    decreases ops.len(),
{
    if ops.len() == 0 {
        entries
    } else {
        let prev = entries_after_ops(entries, ops.drop_last());
        match ops.last() {
            TaskOp::Add(t) => entries_after_insert(prev, task_key(t), t),
            TaskOp::Remove(k) => entries_after_remove(prev, k),
        }
    }
}

/// `s` without the tasks registered under `k`.
pub open spec fn without_key(s: Seq<RunningTask>, k: Seq<char>) -> Seq<RunningTask>
    decreases s.len(),
{
    if s.len() == 0 {
        s
    } else {
        let rest = without_key(s.drop_last(), k);
        if task_key(s.last()) == k {
            rest
        } else {
            rest.push(s.last())
        }
    }
}

/// The tasks added by `ops` and not removed after they were added, in the
/// order they were added.
pub open spec fn tasks_kept(ops: Seq<TaskOp>) -> Seq<RunningTask>
    decreases ops.len(),
{
    if ops.len() == 0 {
        Seq::empty()
    } else {
        let prev = tasks_kept(ops.drop_last());
        match ops.last() {
            TaskOp::Add(t) => prev.push(t),
            TaskOp::Remove(k) => without_key(prev, k),
        }
    }
}

pub open spec fn task_list_keys_distinct(s: Seq<RunningTask>) -> bool {
    forall|i: int, j: int|
        0 <= i < s.len() && 0 <= j < s.len() && i != j ==> task_key(s[i]) != task_key(s[j])
}

proof fn lemma_without_absent_key(s: Seq<RunningTask>, k: Seq<char>)
    requires
        forall|i: int| 0 <= i < s.len() ==> task_key(#[trigger] s[i]) != k,
    ensures
        without_key(s, k) == s,
    decreases s.len(),
{
    if s.len() > 0 {
        lemma_without_absent_key(s.drop_last(), k);
        assert(s.drop_last().push(s.last()) =~= s);
    }
}

proof fn lemma_without_key_at(s: Seq<RunningTask>, k: Seq<char>, i: int)
    requires
        task_list_keys_distinct(s),
        0 <= i < s.len(),
        task_key(s[i]) == k,
    ensures
        without_key(s, k) == s.remove(i),
    decreases s.len(),
{
    let p = s.drop_last();
    if i == s.len() - 1 {
        assert forall|j: int| 0 <= j < p.len() implies task_key(#[trigger] p[j]) != k by {
            assert(p[j] == s[j]);
        }
        lemma_without_absent_key(p, k);
        assert(s.remove(i) =~= p);
    } else {
        assert(task_list_keys_distinct(p)) by {
            assert forall|a: int, b: int|
                0 <= a < p.len() && 0 <= b < p.len() && a != b implies task_key(p[a]) != task_key(
                p[b],
            ) by {
                assert(p[a] == s[a] && p[b] == s[b]);
            }
        }
        assert(p[i] == s[i]);
        lemma_without_key_at(p, k, i);
        assert(task_key(s.last()) != k);
        assert(p.remove(i).push(s.last()) =~= s.remove(i));
    }
}

/// Entries standing for a list of tasks, each under its key.
pub open spec fn entries_of_tasks(s: Seq<RunningTask>) -> Seq<(Seq<char>, RunningTask)> {
    s.map_values(|t: RunningTask| (task_key(t), t))
}

#[verifier::rlimit(40)]
/// Starting from an empty registry, after any run of additions under
/// distinct keys and removals, the registry holds exactly the tasks added
/// and not removed since, in the order they were added; draining it then
/// returns each of them exactly once, in that order.
pub proof fn lemma_drain_in_insertion_order(ops: Seq<TaskOp>)
    requires
        forall|i: int, j: int|
            0 <= i < j < ops.len() && task_op_adds(ops[i]) && task_op_adds(ops[j]) ==> task_op_key(
                ops[i],
            ) != task_op_key(ops[j]),
    ensures
        entries_after_ops(Seq::empty(), ops) == entries_of_tasks(tasks_kept(ops)),
        entries_after_ops(Seq::empty(), ops).map_values(|e: (Seq<char>, RunningTask)| e.1)
            == tasks_kept(ops),
        task_list_keys_distinct(tasks_kept(ops)),
        forall|j: int|
            0 <= j < tasks_kept(ops).len() ==> exists|i: int|
                0 <= i < ops.len() && task_op_adds(ops[i]) && task_op_key(ops[i]) == task_key(
                    #[trigger] tasks_kept(ops)[j],
                ),
    decreases ops.len(),
{
    if ops.len() > 0 {
        let pre = ops.drop_last();
        let n = ops.len() - 1;
        assert forall|i: int, j: int|
            0 <= i < j < pre.len() && task_op_adds(pre[i]) && task_op_adds(pre[j]) implies task_op_key(
            pre[i],
        ) != task_op_key(pre[j]) by {
            assert(pre[i] == ops[i] && pre[j] == ops[j]);
        }
        lemma_drain_in_insertion_order(pre);
        let kp = tasks_kept(pre);
        let ep = entries_after_ops(Seq::empty(), pre);
        let k = tasks_kept(ops);
        match ops.last() {
            TaskOp::Add(t) => {
                assert(!exists|i: int| key_at(ep, task_key(t), i)) by {
                    if exists|i: int| key_at(ep, task_key(t), i) {
                        let i = choose|i: int| key_at(ep, task_key(t), i);
                        assert(ep[i] == (task_key(kp[i]), kp[i]));
                        let a = choose|a: int|
                            0 <= a < pre.len() && task_op_adds(pre[a]) && task_op_key(pre[a])
                                == task_key(kp[i]);
                        assert(pre[a] == ops[a]);
                        assert(task_op_key(ops[n]) == task_key(t));
                    }
                }
                assert(k == kp.push(t));
                assert(entries_after_ops(Seq::empty(), ops) =~= entries_of_tasks(k));
                assert forall|a: int, b: int|
                    0 <= a < k.len() && 0 <= b < k.len() && a != b implies task_key(k[a]) != task_key(
                    k[b],
                ) by {
                    if a == k.len() - 1 {
                        assert(!key_at(ep, task_key(t), b));
                        assert(ep[b] == (task_key(kp[b]), kp[b]));
                    } else if b == k.len() - 1 {
                        assert(!key_at(ep, task_key(t), a));
                        assert(ep[a] == (task_key(kp[a]), kp[a]));
                    }
                }
                assert forall|j: int| 0 <= j < k.len() implies exists|i: int|
                    0 <= i < ops.len() && task_op_adds(ops[i]) && task_op_key(ops[i]) == task_key(
                        #[trigger] k[j],
                    ) by {
                    if j == k.len() - 1 {
                        assert(task_op_adds(ops[n]) && task_op_key(ops[n]) == task_key(k[j]));
                    } else {
                        assert(k[j] == kp[j]);
                        let i = choose|i: int|
                            0 <= i < pre.len() && task_op_adds(pre[i]) && task_op_key(pre[i])
                                == task_key(kp[j]);
                        assert(pre[i] == ops[i]);
                    }
                }
            },
            TaskOp::Remove(key) => {
                if exists|i: int| key_at(ep, key, i) {
                    let i = choose|i: int| key_at(ep, key, i);
                    assert(ep[i] == (task_key(kp[i]), kp[i]));
                    lemma_without_key_at(kp, key, i);
                    assert(k == kp.remove(i));
                    assert(entries_after_ops(Seq::empty(), ops) =~= entries_of_tasks(k));
                    assert forall|a: int, b: int|
                        0 <= a < k.len() && 0 <= b < k.len() && a != b implies task_key(k[a])
                        != task_key(k[b]) by {
                        let a0 = if a < i { a } else { a + 1 };
                        let b0 = if b < i { b } else { b + 1 };
                        assert(k[a] == kp[a0] && k[b] == kp[b0]);
                    }
                    assert forall|j: int| 0 <= j < k.len() implies exists|c: int|
                        0 <= c < ops.len() && task_op_adds(ops[c]) && task_op_key(ops[c]) == task_key(
                            #[trigger] k[j],
                        ) by {
                        let j0 = if j < i { j } else { j + 1 };
                        assert(k[j] == kp[j0]);
                        let c = choose|c: int|
                            0 <= c < pre.len() && task_op_adds(pre[c]) && task_op_key(pre[c])
                                == task_key(kp[j0]);
                        assert(pre[c] == ops[c]);
                    }
                } else {
                    assert forall|j: int| 0 <= j < kp.len() implies task_key(#[trigger] kp[j]) != key by {
                        assert(ep[j] == (task_key(kp[j]), kp[j]));
                        assert(!key_at(ep, key, j));
                    }
                    lemma_without_absent_key(kp, key);
                    assert forall|j: int| 0 <= j < k.len() implies exists|c: int|
                        0 <= c < ops.len() && task_op_adds(ops[c]) && task_op_key(ops[c]) == task_key(
                            #[trigger] k[j],
                        ) by {
                        let c = choose|c: int|
                            0 <= c < pre.len() && task_op_adds(pre[c]) && task_op_key(pre[c])
                                == task_key(kp[j]);
                        assert(pre[c] == ops[c]);
                    }
                }
            },
        }
    }
    assert(entries_of_tasks(tasks_kept(ops)).map_values(|e: (Seq<char>, RunningTask)| e.1)
        =~= tasks_kept(ops));
}

} // verus!
