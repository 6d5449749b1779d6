//! The projects of a workspace and their tasks, as the planner reads them.

use vstd::prelude::*;
use crate::action::{Runtime, RuntimeView};
use crate::target::{Target, TargetView};
use crate::text::same_text;

verus! {

/// A task of a project.
#[derive(Debug, PartialEq, Eq)]
pub struct Task {
    pub id: String,
    /// The command line that the task runs.
    pub command: String,
    /// The tasks that must complete before this one starts.
    pub deps: Vec<Target>,
    /// The files that the task reads, as paths from the workspace root.
    pub inputs: Vec<String>,
    /// The task never ends by itself.
    pub persistent: bool,
    /// The task needs the terminal for itself.
    pub interactive: bool,
    /// The toolchain that runs the task.
    pub runtime: Runtime,
}

/// The mathematical value of a [`Task`].
pub struct TaskView {
    pub id: Seq<char>,
    pub command: Seq<char>,
    pub deps: Seq<TargetView>,
    pub inputs: Seq<Seq<char>>,
    pub persistent: bool,
    pub interactive: bool,
    pub runtime: RuntimeView,
}

impl View for Task {
    type V = TaskView;

    open spec fn view(&self) -> TaskView {
        TaskView {
            id: self.id@,
            command: self.command@,
            deps: self.deps.deep_view(),
            inputs: self.inputs.deep_view(),
            persistent: self.persistent,
            interactive: self.interactive,
            runtime: self.runtime@,
        }
    }
}

impl DeepView for Task {
    type V = TaskView;

    open spec fn deep_view(&self) -> TaskView {
        self@
    }
}

impl TaskView {
    /// One of the task's inputs is among the touched files.
    pub open spec fn is_affected(self, touched: Seq<Seq<char>>) -> bool {
        exists|i: int| 0 <= i < self.inputs.len() && touched.contains(#[trigger] self.inputs[i])
    }
}

impl Task {
    /// Whether one of the task's inputs is among the touched files. A task
    /// without inputs is never affected.
    pub fn is_affected(&self, touched: &Vec<String>) -> (out: bool)
        ensures
            out == self@.is_affected(touched.deep_view()),
    {
        let ghost files = touched.deep_view();
        let mut i: usize = 0;
        while i < self.inputs.len()
            invariant
                i <= self.inputs.len(),
                files == touched.deep_view(),
                forall|a: int| 0 <= a < i ==> !files.contains(#[trigger] self@.inputs[a]),
            decreases self.inputs.len() - i,
        {
            let mut j: usize = 0;
            while j < touched.len()
                invariant
                    j <= touched.len(),
                    i < self.inputs.len(),
                    files == touched.deep_view(),
                    forall|b: int| 0 <= b < j ==> files[b] != self@.inputs[i as int],
                decreases touched.len() - j,
            {
                if same_text(&self.inputs[i], &touched[j]) {
                    assert(files[j as int] == self@.inputs[i as int]);
                    return true;
                }
                j += 1;
            }
            i += 1;
        }
        false
    }
}

/// A project of the workspace.
#[derive(Debug, PartialEq, Eq)]
pub struct Project {
    pub id: String,
    /// Another name by which the project can be asked for.
    pub alias: Option<String>,
    /// The ids or aliases of the projects that this one depends on.
    pub dependencies: Vec<String>,
    pub tasks: Vec<Task>,
    /// The toolchain of the project itself.
    pub runtime: Runtime,
    /// The project's dependencies are installed with those of the whole
    /// workspace, not in the project by itself.
    pub workspace_install: bool,
}

/// The mathematical value of a [`Project`].
pub struct ProjectView {
    pub id: Seq<char>,
    pub alias: Option<Seq<char>>,
    pub dependencies: Seq<Seq<char>>,
    pub tasks: Seq<TaskView>,
    pub runtime: RuntimeView,
    pub workspace_install: bool,
}

impl View for Project {
    type V = ProjectView;

    open spec fn view(&self) -> ProjectView {
        ProjectView {
            id: self.id@,
            alias: self.alias.deep_view(),
            dependencies: self.dependencies.deep_view(),
            tasks: self.tasks.deep_view(),
            runtime: self.runtime@,
            workspace_install: self.workspace_install,
        }
    }
}

impl DeepView for Project {
    type V = ProjectView;

    open spec fn deep_view(&self) -> ProjectView {
        self@
    }
}

impl ProjectView {
    /// The project goes by this name: it is its id or its alias.
    pub open spec fn answers_to(self, name: Seq<char>) -> bool {
        self.id == name || self.alias == Some(name)
    }

    /// The index of the first task from `from` on with the given id.
    pub open spec fn task_from(self, id: Seq<char>, from: int) -> Option<int>
        decreases self.tasks.len() - from,
    {
        if from < 0 || from >= self.tasks.len() {
            None
        } else if self.tasks[from].id == id {
            Some(from)
        } else {
            self.task_from(id, from + 1)
        }
    }

    /// The index of the task with the given id.
    pub open spec fn task_index(self, id: Seq<char>) -> Option<int> {
        self.task_from(id, 0)
    }
}

impl Project {
    /// Whether the project goes by this name.
    pub fn answers_to(&self, name: &String) -> (out: bool)
        ensures
            out == self@.answers_to(name@),
    {
        if same_text(&self.id, name) {
            return true;
        }
        match &self.alias {
            Some(alias) => same_text(alias, name),
            None => false,
        }
    }

    /// The index of the task with the given id, if the project has one.
    pub fn task_index(&self, id: &String) -> (out: Option<usize>)
        ensures
            out is Some <==> self@.task_index(id@) is Some,
            out matches Some(t) ==> self@.task_index(id@) == Some(t as int) && t < self.tasks.len(),
    {
        let mut t: usize = 0;
        while t < self.tasks.len()
            invariant
                t <= self.tasks.len(),
                self@.task_index(id@) == self@.task_from(id@, t as int),
            decreases self.tasks.len() - t,
        {
            if same_text(&self.tasks[t].id, id) {
                return Some(t);
            }
            t += 1;
        }
        None
    }
}

/// The projects of a workspace. A project is found by its id or its alias;
/// where several go by one name, the first of them is found.
#[derive(Debug, PartialEq, Eq)]
pub struct ProjectGraph {
    pub projects: Vec<Project>,
}

impl View for ProjectGraph {
    type V = Seq<ProjectView>;

    open spec fn view(&self) -> Seq<ProjectView> {
        self.projects.deep_view()
    }
}

/// The index of the first project from `from` on that goes by `name`.
pub open spec fn project_from(projects: Seq<ProjectView>, name: Seq<char>, from: int) -> Option<int>
    decreases projects.len() - from,
{
    if from < 0 || from >= projects.len() {
        None
    } else if projects[from].answers_to(name) {
        Some(from)
    } else {
        project_from(projects, name, from + 1)
    }
}

/// The index of the project that goes by `name`.
pub open spec fn project_index(projects: Seq<ProjectView>, name: Seq<char>) -> Option<int> {
    project_from(projects, name, 0)
}

impl ProjectGraph {
    /// The index of the project that goes by `name`, if there is one.
    pub fn project_index(&self, name: &String) -> (out: Option<usize>)
        ensures
            out is Some <==> project_index(self@, name@) is Some,
            out matches Some(p) ==> project_index(self@, name@) == Some(p as int) && p
                < self.projects.len(),
    {
        let mut p: usize = 0;
        while p < self.projects.len()
            invariant
                p <= self.projects.len(),
                project_index(self@, name@) == project_from(self@, name@, p as int),
            decreases self.projects.len() - p,
        {
            if self.projects[p].answers_to(name) {
                return Some(p);
            }
            p += 1;
        }
        None
    }
}

} // verus!
