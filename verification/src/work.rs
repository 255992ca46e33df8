//! What the tasks of a run share: how many of them are at work, and the files
//! that they found.

use vstd::prelude::*;

use crate::canvas::File;
use crate::list;

verus! {

/// What the tasks of a run share.
#[derive(Debug, PartialEq, Eq)]
pub struct WorkState {
    /// The tasks that have begun and not ended.
    pub n_active_requests: usize,
    /// The files that are to be downloaded.
    pub files_to_download: Vec<File>,
}

impl WorkState {
    /// No task has begun, and no file has been found.
    pub fn new() -> (res: WorkState)
        ensures
            res.n_active_requests == 0,
            res.files_to_download.deep_view().len() == 0,
    {
        WorkState { n_active_requests: 0, files_to_download: Vec::new() }
    }

    /// Counts a task that begins.
    pub fn begin_task(&mut self)
        requires
            old(self).n_active_requests < usize::MAX,
        ensures
            final(self).n_active_requests == old(self).n_active_requests + 1,
            final(self).files_to_download == old(self).files_to_download,
    {
        self.n_active_requests = self.n_active_requests + 1;
    }

    /// Counts a task that ends. The result says whether it was the last, so that
    /// whoever waits for the tasks is to be told.
    pub fn end_task(&mut self) -> (res: bool)
        requires
            old(self).n_active_requests > 0,
        ensures
            final(self).n_active_requests == old(self).n_active_requests - 1,
            final(self).files_to_download == old(self).files_to_download,
            res == (final(self).n_active_requests == 0),
    {
        self.n_active_requests = self.n_active_requests - 1;
        self.n_active_requests == 0
    }

    /// Adds `files` to those that are to be downloaded.
    pub fn queue_files(&mut self, files: Vec<File>)
        ensures
            final(self).n_active_requests == old(self).n_active_requests,
            final(self).files_to_download.deep_view() == old(
                self,
            ).files_to_download.deep_view() + files.deep_view(),
    {
        list::append(&mut self.files_to_download, files);
    }
}

/// Something that happens to the tasks of a run.
pub enum TaskEvent {
    /// The task `parent` begins the task `child`.
    Fork { parent: nat, child: nat },
    /// The task `task` ends.
    Finish { task: nat },
}

impl TaskEvent {
    /// Whether `task` begins with this.
    pub open spec fn begins(self, task: nat) -> bool {
        self matches TaskEvent::Fork { parent, child } && child == task
    }
}

/// The tasks of a run: those at work, and those that have ended.
pub struct TaskHistory {
    pub live: Set<nat>,
    pub done: Set<nat>,
}

impl TaskHistory {
    /// A run begins with one task.
    pub open spec fn begun(root: nat) -> TaskHistory {
        TaskHistory { live: Set::empty().insert(root), done: Set::empty() }
    }

    /// Only a task at work begins another, which is new, or ends.
    pub open spec fn allows(self, event: TaskEvent) -> bool {
        match event {
            TaskEvent::Fork { parent, child } => {
                &&& self.live.contains(parent)
                &&& !self.live.contains(child)
                &&& !self.done.contains(child)
            },
            TaskEvent::Finish { task } => self.live.contains(task),
        }
    }

    /// The tasks after `event`.
    pub open spec fn after(self, event: TaskEvent) -> TaskHistory {
        match event {
            TaskEvent::Fork { parent, child } => TaskHistory {
                live: self.live.insert(child),
                ..self
            },
            TaskEvent::Finish { task } => TaskHistory {
                live: self.live.remove(task),
                done: self.done.insert(task),
            },
        }
    }
}

/// The tasks of a run that began with `root`, after `events`.
pub open spec fn history(root: nat, events: Seq<TaskEvent>) -> TaskHistory
    decreases events.len(),
{
    if events.len() == 0 {
        TaskHistory::begun(root)
    } else {
        history(root, events.drop_last()).after(events.last())
    }
}

/// Whether every one of `events` can happen when it does.
pub open spec fn is_run(root: nat, events: Seq<TaskEvent>) -> bool
    decreases events.len(),
{
    events.len() > 0 ==> is_run(root, events.drop_last()) && history(
        root,
        events.drop_last(),
    ).allows(events.last())
}

/// The number of active tasks after `events`, as `begin_task` and `end_task`
/// count them: one for the first task, one more for each that is begun, one
/// less for each that ends.
pub open spec fn counted(events: Seq<TaskEvent>) -> int
    decreases events.len(),
{
    if events.len() == 0 {
        1
    } else {
        match events.last() {
            TaskEvent::Fork { parent, child } => counted(events.drop_last()) + 1,
            TaskEvent::Finish { task } => counted(events.drop_last()) - 1,
        }
    }
}

/// The count of active tasks is the number of tasks at work.
pub proof fn law_count_is_exact(root: nat, events: Seq<TaskEvent>)
    requires
        is_run(root, events),
    ensures
        history(root, events).live.finite(),
        counted(events) == history(root, events).live.len(),
    decreases events.len(),
{
    if events.len() > 0 {
        law_count_is_exact(root, events.drop_last());
    }
}

/// Once no task is active, every task that was ever begun has ended, and none
/// can begin: whoever is told so then is told for good.
pub proof fn law_idle_is_final(root: nat, events: Seq<TaskEvent>, task: nat, event: TaskEvent)
    requires
        is_run(root, events),
        counted(events) == 0,
        task == root || exists|k: int|
            0 <= k < events.len() && (#[trigger] events[k]).begins(task),
    ensures
        history(root, events).done.contains(task),
        !history(root, events).allows(event),
{
    law_count_is_exact(root, events);
    let live = history(root, events).live;
    assert forall|t: nat| !live.contains(t) by {
        if live.contains(t) {
            assert(live.remove(t).insert(t) =~= live);
        }
    }
    lemma_no_task_is_lost(root, events, task);
}

/// A task that was begun is at work or has ended.
proof fn lemma_no_task_is_lost(root: nat, events: Seq<TaskEvent>, task: nat)
    requires
        is_run(root, events),
        task == root || exists|k: int|
            0 <= k < events.len() && (#[trigger] events[k]).begins(task),
    ensures
        history(root, events).live.contains(task) || history(root, events).done.contains(task),
    decreases events.len(),
{
    if events.len() > 0 {
        let before = events.drop_last();
        if task == root {
            lemma_no_task_is_lost(root, before, task);
        } else {
            let k = choose|k: int| 0 <= k < events.len() && (#[trigger] events[k]).begins(task);
            if k < before.len() {
                assert(before[k].begins(task));
                lemma_no_task_is_lost(root, before, task);
            }
        }
    }
}

/// No task is active only at the end of a run, never in its course.
pub proof fn law_idle_comes_last(root: nat, events: Seq<TaskEvent>, k: int)
    requires
        is_run(root, events),
        0 <= k <= events.len(),
        counted(events.take(k)) == 0,
    ensures
        k == events.len(),
    decreases events.len(),
{
    assert(events.take(events.len() as int) == events);
    if k < events.len() {
        let before = events.drop_last();
        assert(before.take(k) == events.take(k));
        law_idle_comes_last(root, before, k);
        assert(events.take(k) == before);
        law_idle_is_final(root, before, root, events.last());
    }
}

} // verus!
