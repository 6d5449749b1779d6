//! The ways in which planning fails.

use vstd::prelude::*;
use crate::action::{ActionNode, ActionView};
use crate::target::{ScopeView, TargetScope};

verus! {

/// Where a target address was used.
#[derive(Clone, Copy, Debug, PartialEq, Eq, Structural)]
pub enum ScopeContext {
    /// As a direct request to run a task.
    Run,
    /// As a dependency that a task declares.
    TaskDependency,
}

/// Why a plan could not be made.
#[derive(Debug, PartialEq, Eq)]
pub enum DepGraphError {
    /// No project goes by this name.
    UnknownProject(String),
    /// The project, given by its id, has no task with this id.
    UnknownTask(String, String),
    /// The scope of a target has no meaning where the target was used.
    UnsupportedScope(TargetScope, ScopeContext),
    /// The expansion of this node led back to the node itself.
    CycleDetected(ActionNode),
}

/// The mathematical value of a [`DepGraphError`].
pub enum ErrorView {
    UnknownProject(Seq<char>),
    UnknownTask(Seq<char>, Seq<char>),
    UnsupportedScope(ScopeView, ScopeContext),
    CycleDetected(ActionView),
}

impl View for DepGraphError {
    type V = ErrorView;

    open spec fn view(&self) -> ErrorView {
        match self {
            DepGraphError::UnknownProject(name) => ErrorView::UnknownProject(name@),
            DepGraphError::UnknownTask(project, task) => ErrorView::UnknownTask(project@, task@),
            DepGraphError::UnsupportedScope(scope, context) => ErrorView::UnsupportedScope(
                scope@,
                *context,
            ),
            DepGraphError::CycleDetected(node) => ErrorView::CycleDetected(node@),
        }
    }
}

impl ScopeView {
    /// The name of the scope in a message.
    pub open spec fn named(self) -> Seq<char> {
        match self {
            ScopeView::All => "All scope (:)"@,
            ScopeView::Deps => "Dependencies scope (^:)"@,
            ScopeView::OwnSelf => "Self scope (~:)"@,
            ScopeView::Project(id) => "Project scope ("@ + id + ":)"@,
        }
    }
}

impl ScopeContext {
    /// The name of the context in a message.
    pub open spec fn named(self) -> Seq<char> {
        match self {
            ScopeContext::Run => "run contexts"@,
            ScopeContext::TaskDependency => "task dependencies"@,
        }
    }
}

impl ErrorView {
    /// The failure in words.
    pub open spec fn message(self) -> Seq<char> {
        match self {
            ErrorView::UnknownProject(name) => "No project has been configured with the name or alias "@
                + name + "."@,
            ErrorView::UnknownTask(project, task) => "Unknown task "@ + task + " for project "@
                + project + "."@,
            ErrorView::UnsupportedScope(scope, context) => scope.named() + " is not supported in "@
                + context.named() + "."@,
            ErrorView::CycleDetected(node) => "A dependency cycle has been detected for "@
                + node.label() + "."@,
        }
    }
}

impl DepGraphError {
    /// The failure in words.
    pub fn message(&self) -> (out: String)
        ensures
            out@ == self@.message(),
    {
        match self {
            DepGraphError::UnknownProject(name) => {
                let mut out = "No project has been configured with the name or alias ".to_owned();
                out.append(name.as_str());
                out.append(".");
                out
            },
            DepGraphError::UnknownTask(project, task) => {
                let mut out = "Unknown task ".to_owned();
                out.append(task.as_str());
                out.append(" for project ");
                out.append(project.as_str());
                out.append(".");
                out
            },
            DepGraphError::UnsupportedScope(scope, context) => {
                let mut out = match scope {
                    TargetScope::All => "All scope (:)".to_owned(),
                    TargetScope::Deps => "Dependencies scope (^:)".to_owned(),
                    TargetScope::OwnSelf => "Self scope (~:)".to_owned(),
                    TargetScope::Project(id) => {
                        let mut s = "Project scope (".to_owned();
                        s.append(id.as_str());
                        s.append(":)");
                        s
                    },
                };
                out.append(" is not supported in ");
                match context {
                    ScopeContext::Run => out.append("run contexts"),
                    ScopeContext::TaskDependency => out.append("task dependencies"),
                }
                out.append(".");
                out
            },
            DepGraphError::CycleDetected(node) => {
                let mut out = "A dependency cycle has been detected for ".to_owned();
                out.append(node.label().as_str());
                out.append(".");
                out
            },
        }
    }
}

} // verus!
