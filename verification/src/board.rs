//! The task board kept by the server: the tasks last sent by a client.
use vstd::prelude::*;
use crate::order::{sort_by_project, sort_by_project_spec};
use crate::select::tasks_view;
use crate::task::{Task, TaskModel};

verus! {

/// The tasks last sent to the server.
pub struct TaskBoard {
    tasks: Vec<Task>,
}

impl View for TaskBoard {
    type V = Seq<TaskModel>;

    closed spec fn view(&self) -> Seq<TaskModel> {
        tasks_view(self.tasks@)
    }
}

impl TaskBoard {
    /// An empty board.
    pub fn new() -> (b: TaskBoard)
        ensures
            b@ == Seq::<TaskModel>::empty(),
    {
        let b = TaskBoard { tasks: Vec::new() };
        assert(b@ =~= Seq::<TaskModel>::empty());
        b
    }

    /// Replaces the tasks on the board.
    pub fn set_tasks(&mut self, tasks: Vec<Task>)
        ensures
            final(self)@ == tasks_view(tasks@),
    {
        self.tasks = tasks;
    }

    /// The tasks on the board, in the order they were sent.
    pub fn tasks(&self) -> (r: Vec<Task>)
        ensures
            tasks_view(r@) == self@,
    {
        let mut r: Vec<Task> = Vec::new();
        let mut i: usize = 0;
        assert(tasks_view(self.tasks@).take(0) =~= tasks_view(r@));
        while i < self.tasks.len()
            invariant
                i <= self.tasks.len(),
                tasks_view(r@) == tasks_view(self.tasks@).take(i as int),
            decreases self.tasks.len() - i,
        {
            let ghost before = r@;
            let t = self.tasks[i].duplicate();
            r.push(t);
            assert(tasks_view(r@) =~= tasks_view(before).push(t@));
            assert(tasks_view(self.tasks@).take(i + 1) =~= tasks_view(self.tasks@).take(i as int).push(t@));
            i = i + 1;
        }
        assert(tasks_view(self.tasks@).take(i as int) =~= tasks_view(self.tasks@));
        r
    }

    /// The tasks on the board ordered by project (tasks of the same project
    /// in the order they were sent).
    pub fn sorted_tasks(&self) -> (r: Vec<Task>)
        ensures
            tasks_view(r@) == sort_by_project_spec(self@),
    {
        sort_by_project(&self.tasks)
    }
}

} // verus!
