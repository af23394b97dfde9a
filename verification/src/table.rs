//! Where the tasks wait while the messages carry their keys.

use std::collections::HashMap;

use vstd::prelude::*;

use crate::runtime::TaskKey;

verus! {

/// Tasks, each under a key of its own.
pub struct TaskTable<T> {
    pub tasks: HashMap<TaskKey, T>,
    pub next_key: TaskKey,
}

impl<T> View for TaskTable<T> {
    type V = Map<TaskKey, T>;

    open spec fn view(&self) -> Map<TaskKey, T> {
        self.tasks@
    }
}

/// Whether `key` is where `task` was stored, which took the table from `before` to `after`.
pub open spec fn stored<T>(
    before: TaskTable<T>,
    task: T,
    key: TaskKey,
    after: TaskTable<T>,
) -> bool {
    &&& key == before.next_key
    &&& !before@.contains_key(key)
    &&& after@ == before@.insert(key, task)
    &&& after.next_key == before.next_key + 1
}

/// Whether `r` is what was taken from under `key`, which took the table from `before` to `after`.
pub open spec fn taken<T>(
    before: TaskTable<T>,
    key: TaskKey,
    after: TaskTable<T>,
    r: Option<T>,
) -> bool {
    &&& r == before@.get(key)
    &&& after@ == before@.remove(key)
    &&& after.next_key == before.next_key
}

impl<T> TaskTable<T> {
    /// Keys are given out in order, so those in use lie below the next.
    pub open spec fn wf(self) -> bool {
        forall|key: TaskKey| #[trigger] self@.contains_key(key) ==> key < self.next_key
    }

    /// A table without tasks.
    pub fn new() -> (table: Self)
        ensures
            table.wf(),
            table@ == Map::<TaskKey, T>::empty(),
            table.next_key == 0,
    {
        TaskTable { tasks: HashMap::new(), next_key: 0 }
    }

    /// Stores a task under a key that no other has or had.
    pub fn store(&mut self, task: T) -> (key: TaskKey)
        requires
            old(self).wf(),
            old(self).next_key < TaskKey::MAX,
        ensures
            final(self).wf(),
            stored(*old(self), task, key, *final(self)),
    {
        let key = self.next_key;
        self.tasks.insert(key, task);
        self.next_key += 1;
        assert forall|other: TaskKey| #[trigger] self@.contains_key(other) implies other
            < self.next_key by {
            if other != key {
                assert(old(self)@.contains_key(other));
            }
        }
        key
    }

    /// Takes the task under `key` out, if there is one.
    pub fn take(&mut self, key: TaskKey) -> (task: Option<T>)
        requires
            old(self).wf(),
        ensures
            final(self).wf(),
            taken(*old(self), key, *final(self), task),
    {
        self.tasks.remove(&key)
    }
}

/// A task that was stored is taken out again by its key, once, whatever else the table holds.
pub proof fn law_take_undoes_store<T>(table: Map<TaskKey, T>, key: TaskKey, task: T)
    requires
        !table.contains_key(key),
    ensures
        table.insert(key, task).get(key) == Some(task),
        table.insert(key, task).remove(key) == table,
        table.insert(key, task).remove(key).get(key) is None,
{
    assert(table.insert(key, task).remove(key) =~= table);
}

/// A task that was stored is what its key gives, once: then it is gone, and the table is as it was
/// before.
pub proof fn law_stored_task_is_taken_once<T>(
    table: TaskTable<T>,
    task: T,
    key: TaskKey,
    full: TaskTable<T>,
    first: Option<T>,
    emptied: TaskTable<T>,
    second: Option<T>,
    after: TaskTable<T>,
)
    requires
        stored(table, task, key, full),
        taken(full, key, emptied, first),
        taken(emptied, key, after, second),
    ensures
        first == Some(task),
        emptied@ == table@,
        second is None,
        after@ == table@,
{
    assert(table@.insert(key, task).remove(key) =~= table@);
    assert(table@.remove(key) =~= table@);
}

/// Tasks do not get in each other's way: each is under a key of its own, those already there stay,
/// and what is taken leaves the others.
pub proof fn law_tasks_keep_apart<T>(
    table: TaskTable<T>,
    task: T,
    key: TaskKey,
    one: TaskTable<T>,
    other_task: T,
    other_key: TaskKey,
    both: TaskTable<T>,
    taken_key: TaskKey,
    after: TaskTable<T>,
    r: Option<T>,
    kept: TaskKey,
)
    requires
        stored(table, task, key, one),
        stored(one, other_task, other_key, both),
        taken(both, taken_key, after, r),
        kept != taken_key,
    ensures
        key != other_key,
        both@.get(key) == Some(task),
        both@.get(other_key) == Some(other_task),
        kept != key && kept != other_key ==> both@.get(kept) == table@.get(kept),
        after@.get(kept) == both@.get(kept),
        after@.get(taken_key) is None,
        taken_key == key ==> r == Some(task),
        taken_key == other_key ==> r == Some(other_task),
        taken_key != key && taken_key != other_key ==> r == table@.get(taken_key),
{
}

/// A key is given out once: whatever is stored or taken meanwhile, a later task is under a greater
/// one.
pub proof fn law_keys_are_not_reused<T>(
    tables: Seq<TaskTable<T>>,
    i: int,
    task: T,
    key: TaskKey,
    j: int,
    later_task: T,
    later_key: TaskKey,
)
    requires
        0 <= i < j < tables.len() - 1,
        forall|n: int|
            0 < n < tables.len() ==> follows(tables[n - 1], #[trigger] tables[n]),
        stored(tables[i], task, key, tables[i + 1]),
        stored(tables[j], later_task, later_key, tables[j + 1]),
    ensures
        key < later_key,
{
    lemma_keys_grow(tables, i + 1, j);
}

/// Whether `after` comes of `before` by storing or taking a task.
pub open spec fn follows<T>(before: TaskTable<T>, after: TaskTable<T>) -> bool {
    ||| exists|task: T, key: TaskKey| stored(before, task, key, after)
    ||| exists|key: TaskKey, r: Option<T>| taken(before, key, after, r)
}

/// The next key only grows.
proof fn lemma_keys_grow<T>(tables: Seq<TaskTable<T>>, i: int, j: int)
    requires
        0 <= i <= j < tables.len(),
        forall|n: int|
            0 < n < tables.len() ==> follows(tables[n - 1], #[trigger] tables[n]),
    ensures
        tables[i].next_key <= tables[j].next_key,
    decreases j - i,
{
    if i < j {
        lemma_keys_grow(tables, i, j - 1);
        assert(follows(tables[j - 1], tables[j]));
    }
}

}
