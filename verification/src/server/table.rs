//! The table of the transfers that the receiver has under way.

use std::collections::HashMap;
use vstd::prelude::*;
use vstd::std_specs::hash::*;
use crate::server::task::{Task, TaskView};

verus! {

broadcast use vstd::std_specs::hash::group_hash_axioms;

/// The records of all transfers under way, by transfer identifier.
pub struct TaskTable {
    tasks: HashMap<u128, Task>,
}

/// The invariant of the table: every record in it keeps its own.
pub open spec fn tasks_wf(tasks: Map<u128, TaskView>) -> bool {
    &&& tasks.dom().finite()
    &&& forall|transfer_id: u128| #[trigger]
        tasks.contains_key(transfer_id) ==> tasks[transfer_id].wf()
}

/// The records of a table as mathematical values.
pub open spec fn task_views(tasks: HashMap<u128, Task>) -> Map<u128, TaskView> {
    Map::new(
        |transfer_id: u128| tasks@.contains_key(transfer_id),
        |transfer_id: u128| tasks@[transfer_id]@,
    )
}

impl View for TaskTable {
    type V = Map<u128, TaskView>;

    closed spec fn view(&self) -> Map<u128, TaskView> {
        task_views(self.tasks)
    }
}

impl TaskTable {
    #[verifier::type_invariant]
    pub open spec fn well_formed(self) -> bool {
        tasks_wf(self@)
    }

    /// Whether the table keeps its invariant, which it always does.
    pub open spec fn wf(&self) -> bool {
        tasks_wf(self@)
    }

    /// A table without transfers.
    pub fn new() -> (table: TaskTable)
        ensures
            table@ == Map::<u128, TaskView>::empty(),
            table.wf(),
    {
        let tasks: HashMap<u128, Task> = HashMap::new();
        assert(task_views(tasks) =~= Map::<u128, TaskView>::empty());
        TaskTable { tasks }
    }

    /// Number of transfers under way.
    pub fn len(&self) -> (len: usize)
        ensures
            len == self@.len(),
    {
        assert(self@.dom() =~= self.tasks@.dom());
        self.tasks.len()
    }

    /// Whether no transfer is under way.
    pub fn is_empty(&self) -> (empty: bool)
        ensures
            empty == (self@.len() == 0),
    {
        self.len() == 0
    }

    /// Whether a transfer has this identifier.
    pub fn contains(&self, transfer_id: u128) -> (found: bool)
        ensures
            found == self@.contains_key(transfer_id),
    {
        self.tasks.contains_key(&transfer_id)
    }

    /// The record of a transfer.
    pub fn get(&self, transfer_id: u128) -> (task: Option<&Task>)
        ensures
            self.wf(),
            match task {
                Some(task) => self@.contains_key(transfer_id) && task@ == self@[transfer_id],
                None => !self@.contains_key(transfer_id),
            },
    {
        proof {
            use_type_invariant(self);
        }
        self.tasks.get(&transfer_id)
    }

    /// Puts a record under an identifier, in place of the one that may be
    /// there.
    pub fn insert(&mut self, transfer_id: u128, task: Task)
        ensures
            final(self).wf(),
            final(self)@ == old(self)@.insert(transfer_id, task@),
    {
        proof {
            use_type_invariant(&*self);
            use_type_invariant(&task);
        }
        // The records leave the table while they are worked on.
        let mut tasks: HashMap<u128, Task> = HashMap::new();
        assert(task_views(tasks) =~= Map::<u128, TaskView>::empty());
        core::mem::swap(&mut self.tasks, &mut tasks);
        tasks.insert(transfer_id, task);
        assert(task_views(tasks) =~= old(self)@.insert(transfer_id, task@));
        core::mem::swap(&mut self.tasks, &mut tasks);
    }

    /// Takes the record of a transfer out of the table.
    pub fn remove(&mut self, transfer_id: u128) -> (task: Option<Task>)
        ensures
            final(self).wf(),
            final(self)@ == old(self)@.remove(transfer_id),
            match task {
                Some(task) => old(self)@.contains_key(transfer_id) && task@ == old(
                    self,
                )@[transfer_id],
                None => !old(self)@.contains_key(transfer_id),
            },
    {
        proof {
            use_type_invariant(&*self);
        }
        let mut tasks: HashMap<u128, Task> = HashMap::new();
        assert(task_views(tasks) =~= Map::<u128, TaskView>::empty());
        core::mem::swap(&mut self.tasks, &mut tasks);
        let task = tasks.remove(&transfer_id);
        assert(task_views(tasks) =~= old(self)@.remove(transfer_id));
        core::mem::swap(&mut self.tasks, &mut tasks);
        task
    }
}

} // verus!
