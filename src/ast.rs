//! The document tree produced by the parser, and its mathematical model.
use vstd::prelude::*;

verus! {

/// A reference to an issue tracker: a project code and a number.
#[derive(Debug)]
pub struct TaskId {
    pub project: String,
    pub number: u32,
}

/// One task entry: its id, its one-line description and optional sub-items.
#[derive(Debug)]
pub struct Task {
    pub id: TaskId,
    pub description: String,
    pub sub_list: Option<Vec<String>>,
}

/// A version label together with a flat list of tasks.
#[derive(Debug)]
pub struct EventVersion {
    pub version: String,
    pub tasks: Vec<Task>,
}

/// A version section; `task_groups` is never empty in a parsed document.
#[derive(Debug)]
pub struct VersionGroup {
    pub version: String,
    pub task_groups: Vec<TaskGroup>,
}

/// A named group of tasks; `entries` is never empty in a parsed document.
#[derive(Debug)]
pub struct TaskGroup {
    pub header: String,
    pub entries: Vec<Task>,
}

/// A whole document: its header and its version sections, in order.
#[derive(Debug)]
pub struct ChangeLog {
    pub header: String,
    pub versions: Vec<VersionGroup>,
}

/// Model of a [`TaskId`].
pub struct TaskIdView {
    pub project: Seq<char>,
    pub number: u32,
}

/// Model of a [`Task`].
pub struct TaskView {
    pub id: TaskIdView,
    pub description: Seq<char>,
    pub sub_list: Option<Seq<Seq<char>>>,
}

/// Model of an [`EventVersion`].
pub struct EventVersionView {
    pub version: Seq<char>,
    pub tasks: Seq<TaskView>,
}

/// Model of a [`TaskGroup`].
pub struct TaskGroupView {
    pub header: Seq<char>,
    pub entries: Seq<TaskView>,
}

/// Model of a [`VersionGroup`].
pub struct VersionGroupView {
    pub version: Seq<char>,
    pub task_groups: Seq<TaskGroupView>,
}

/// Model of a [`ChangeLog`].
pub struct ChangeLogView {
    pub header: Seq<char>,
    pub versions: Seq<VersionGroupView>,
}

/// The characters of each string of a list.
pub open spec fn strings_view(v: Seq<String>) -> Seq<Seq<char>> {
    v.map_values(|x: String| x@)
}

impl View for TaskId {
    type V = TaskIdView;

    open spec fn view(&self) -> TaskIdView {
        TaskIdView { project: self.project@, number: self.number }
    }
}

impl View for Task {
    type V = TaskView;

    open spec fn view(&self) -> TaskView {
        TaskView {
            id: self.id@,
            description: self.description@,
            sub_list: match self.sub_list {
                Some(v) => Some(strings_view(v@)),
                None => None,
            },
        }
    }
}

/// The models of a list of tasks.
pub open spec fn tasks_view(v: Seq<Task>) -> Seq<TaskView> {
    v.map_values(|t: Task| t@)
}

impl View for EventVersion {
    type V = EventVersionView;

    open spec fn view(&self) -> EventVersionView {
        EventVersionView { version: self.version@, tasks: tasks_view(self.tasks@) }
    }
}

impl View for TaskGroup {
    type V = TaskGroupView;

    open spec fn view(&self) -> TaskGroupView {
        TaskGroupView { header: self.header@, entries: tasks_view(self.entries@) }
    }
}

/// The models of a list of task groups.
pub open spec fn task_groups_view(v: Seq<TaskGroup>) -> Seq<TaskGroupView> {
    v.map_values(|g: TaskGroup| g@)
}

impl View for VersionGroup {
    type V = VersionGroupView;

    open spec fn view(&self) -> VersionGroupView {
        VersionGroupView { version: self.version@, task_groups: task_groups_view(self.task_groups@) }
    }
}

/// The models of a list of version sections.
pub open spec fn versions_view(v: Seq<VersionGroup>) -> Seq<VersionGroupView> {
    v.map_values(|g: VersionGroup| g@)
}

impl View for ChangeLog {
    type V = ChangeLogView;

    open spec fn view(&self) -> ChangeLogView {
        ChangeLogView { header: self.header@, versions: versions_view(self.versions@) }
    }
}

} // verus!
