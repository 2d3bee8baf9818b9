//! The shared task record model: status, priority, task records, creation
//! requests, partial updates and fetch filters.
use vstd::prelude::*;
use crate::date::Date;

verus! {

pub type TaskId = String;

#[derive(Clone, Copy, Debug, PartialEq, Eq, Structural)]
pub enum TaskStatus {
    Pending,
    Done,
}

/// Task priority, ordered `Unset < Low < Medium < High`.
#[derive(Clone, Copy, Debug, PartialEq, Eq, Structural)]
pub enum Priority {
    Unset,
    Low,
    Medium,
    High,
}

impl Priority {
    /// Position in the priority order, `Unset` lowest.
    pub open spec fn spec_rank(self) -> int {
        match self {
            Priority::Unset => 0,
            Priority::Low => 1,
            Priority::Medium => 2,
            Priority::High => 3,
        }
    }

    pub fn rank(&self) -> (r: u8)
        ensures
            r == self.spec_rank(),
    {
        match self {
            Priority::Unset => 0,
            Priority::Low => 1,
            Priority::Medium => 2,
            Priority::High => 3,
        }
    }
}

/// Which backend a record came from.
#[derive(Clone, Copy, Debug, PartialEq, Eq, Structural)]
pub enum BackendSource {
    Obsidian,
    LocalFile,
}

impl BackendSource {
    /// The identifier prefix that addresses this backend.
    pub open spec fn spec_name(self) -> Seq<char> {
        match self {
            BackendSource::Obsidian => "obsidian"@,
            BackendSource::LocalFile => "local"@,
        }
    }

    pub fn name(&self) -> (r: &'static str)
        ensures
            r@ == self.spec_name(),
    {
        match self {
            BackendSource::Obsidian => "obsidian",
            BackendSource::LocalFile => "local",
        }
    }

    pub open spec fn spec_icon(self) -> Seq<char> {
        match self {
            BackendSource::Obsidian => "\u{25c6}"@,
            BackendSource::LocalFile => "\u{25a0}"@,
        }
    }

    pub fn icon(&self) -> (r: &'static str)
        ensures
            r@ == self.spec_icon(),
    {
        match self {
            BackendSource::Obsidian => "\u{25c6}",
            BackendSource::LocalFile => "\u{25a0}",
        }
    }
}

/// One task record, produced fresh on every fetch. `source`, `source_path`
/// and `source_line` address the physical line that produced it.
#[derive(Clone, Debug)]
pub struct Task {
    pub id: TaskId,
    pub title: String,
    pub status: TaskStatus,
    pub priority: Priority,
    pub due: Option<Date>,
    pub tags: Vec<String>,
    pub source: BackendSource,
    pub source_line: Option<usize>,
    pub source_path: Option<String>,
    pub created_at: Option<Date>,
    pub completed_at: Option<Date>,
}

/// A request to create a task; never round-tripped back.
pub struct NewTask {
    pub title: String,
    pub priority: Priority,
    pub due: Option<Date>,
    pub tags: Vec<String>,
    pub backend: BackendSource,
}

/// A partial update: an absent field leaves the task unchanged; `due` uses
/// a double option so that `Some(None)` clears the due date.
#[derive(Clone, Debug)]
pub struct TaskUpdate {
    pub title: Option<String>,
    pub status: Option<TaskStatus>,
    pub priority: Option<Priority>,
    pub due: Option<Option<Date>>,
    pub tags: Option<Vec<String>>,
}

impl Default for TaskUpdate {
    /// The empty update, which changes nothing.
    fn default() -> (r: Self)
        ensures
            r.title is None,
            r.status is None,
            r.priority is None,
            r.due is None,
            r.tags is None,
    {
        TaskUpdate { title: None, status: None, priority: None, due: None, tags: None }
    }
}

/// A fetch filter; absent fields do not restrict.
pub struct TaskFilter {
    pub status: Option<TaskStatus>,
    pub due_before: Option<Date>,
    pub due_after: Option<Date>,
    pub search: Option<String>,
}

impl Default for TaskFilter {
    /// The filter that keeps every task.
    fn default() -> (r: Self)
        ensures
            r.status is None,
            r.due_before is None,
            r.due_after is None,
            r.search is None,
    {
        TaskFilter { status: None, due_before: None, due_after: None, search: None }
    }
}

} // verus!
