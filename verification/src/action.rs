//! Action nodes: the units of work that a plan is made of.

use vstd::prelude::*;
use crate::target::{Target, TargetView};
use crate::text::same_text;

verus! {

/// The platform that a toolchain belongs to.
#[derive(Clone, Copy, Debug, PartialEq, Eq, Structural)]
pub enum PlatformType {
    Bun,
    Deno,
    Node,
    Rust,
    System,
    Unknown,
}

/// A toolchain of one platform in one version. The version is free text; a
/// toolchain that is taken as found on the machine has an empty version.
#[derive(Debug, PartialEq, Eq)]
pub struct Runtime {
    pub platform: PlatformType,
    pub version: String,
}

/// The mathematical value of a [`Runtime`].
pub struct RuntimeView {
    pub platform: PlatformType,
    pub version: Seq<char>,
}

impl View for Runtime {
    type V = RuntimeView;

    open spec fn view(&self) -> RuntimeView {
        RuntimeView { platform: self.platform, version: self.version@ }
    }
}

impl DeepView for Runtime {
    type V = RuntimeView;

    open spec fn deep_view(&self) -> RuntimeView {
        self@
    }
}

impl Clone for Runtime {
    fn clone(&self) -> (out: Self)
        ensures
            out@ == self@,
    {
        Runtime { platform: self.platform, version: self.version.clone() }
    }
}

impl PlatformType {
    /// The name of the platform.
    pub open spec fn name_text(self) -> Seq<char> {
        match self {
            PlatformType::Bun => "bun"@,
            PlatformType::Deno => "deno"@,
            PlatformType::Node => "node"@,
            PlatformType::Rust => "rust"@,
            PlatformType::System => "system"@,
            PlatformType::Unknown => "unknown"@,
        }
    }

    /// The name of the platform.
    pub fn name(&self) -> (out: String)
        ensures
            out@ == self.name_text(),
    {
        match self {
            PlatformType::Bun => "bun".to_owned(),
            PlatformType::Deno => "deno".to_owned(),
            PlatformType::Node => "node".to_owned(),
            PlatformType::Rust => "rust".to_owned(),
            PlatformType::System => "system".to_owned(),
            PlatformType::Unknown => "unknown".to_owned(),
        }
    }
}

impl RuntimeView {
    /// The runtime in words: the platform and, where there is one, a colon
    /// and the version.
    pub open spec fn label(self) -> Seq<char> {
        if self.version.len() == 0 {
            self.platform.name_text()
        } else {
            self.platform.name_text() + ":"@ + self.version
        }
    }
}

impl Runtime {
    /// The runtime in words: the platform and, where there is one, a colon
    /// and the version.
    pub fn label(&self) -> (out: String)
        ensures
            out@ == self@.label(),
    {
        let mut out = self.platform.name();
        if self.version.as_str().unicode_len() != 0 {
            out.append(":");
            out.append(self.version.as_str());
        }
        out
    }

    /// Whether two runtimes denote the same value.
    pub fn same(&self, other: &Runtime) -> (out: bool)
        ensures
            out == (self@ == other@),
    {
        self.platform == other.platform && self.version == other.version
    }
}

/// One unit of planned work.
#[derive(Debug, PartialEq, Eq)]
pub enum ActionNode {
    /// Provision a toolchain.
    SetupToolchain { runtime: Runtime },
    /// Install the dependencies that a toolchain manages, in the scope of
    /// one project or, with no scope, for the whole workspace.
    InstallDependencies { runtime: Runtime, scope: Option<String> },
    /// Reconcile the generated files of a project.
    SyncProject { runtime: Runtime, project: String },
    /// Run one task. The target has the scope of one project.
    RunTask { target: Target, runtime: Runtime, persistent: bool, interactive: bool },
}

/// The mathematical value of an [`ActionNode`].
pub enum ActionView {
    SetupToolchain { runtime: RuntimeView },
    InstallDependencies { runtime: RuntimeView, scope: Option<Seq<char>> },
    SyncProject { runtime: RuntimeView, project: Seq<char> },
    RunTask { target: TargetView, runtime: RuntimeView, persistent: bool, interactive: bool },
}

impl ActionView {
    /// A task that never ends by itself.
    pub open spec fn is_persistent(self) -> bool {
        self matches ActionView::RunTask { persistent, .. } && persistent
    }

    /// A task that needs the terminal for itself.
    pub open spec fn is_interactive(self) -> bool {
        self matches ActionView::RunTask { interactive, .. } && interactive
    }
}

impl ActionView {
    /// The node in words: its kind and, in brackets, what it acts on.
    pub open spec fn label(self) -> Seq<char> {
        match self {
            ActionView::SetupToolchain { runtime } => "SetupToolchain("@ + runtime.label() + ")"@,
            ActionView::InstallDependencies { runtime, scope } => match scope {
                Some(project) => "InstallDependencies("@ + runtime.label() + ", "@ + project
                    + ")"@,
                None => "InstallDependencies("@ + runtime.label() + ")"@,
            },
            ActionView::SyncProject { runtime, project } => "SyncProject("@ + runtime.label()
                + ", "@ + project + ")"@,
            ActionView::RunTask { target, .. } => "RunTask("@ + target.text() + ")"@,
        }
    }
}

impl View for ActionNode {
    type V = ActionView;

    open spec fn view(&self) -> ActionView {
        match self {
            ActionNode::SetupToolchain { runtime } => ActionView::SetupToolchain {
                runtime: runtime@,
            },
            ActionNode::InstallDependencies { runtime, scope } => ActionView::InstallDependencies {
                runtime: runtime@,
                scope: scope.deep_view(),
            },
            ActionNode::SyncProject { runtime, project } => ActionView::SyncProject {
                runtime: runtime@,
                project: project@,
            },
            ActionNode::RunTask { target, runtime, persistent, interactive } => ActionView::RunTask {
                target: target@,
                runtime: runtime@,
                persistent: *persistent,
                interactive: *interactive,
            },
        }
    }
}

impl DeepView for ActionNode {
    type V = ActionView;

    open spec fn deep_view(&self) -> ActionView {
        self@
    }
}

impl Clone for ActionNode {
    fn clone(&self) -> (out: Self)
        ensures
            out@ == self@,
    {
        match self {
            ActionNode::SetupToolchain { runtime } => ActionNode::SetupToolchain {
                runtime: runtime.clone(),
            },
            ActionNode::InstallDependencies { runtime, scope } => {
                let scope = match scope {
                    Some(id) => Some(id.clone()),
                    None => None,
                };
                ActionNode::InstallDependencies { runtime: runtime.clone(), scope }
            },
            ActionNode::SyncProject { runtime, project } => ActionNode::SyncProject {
                runtime: runtime.clone(),
                project: project.clone(),
            },
            ActionNode::RunTask { target, runtime, persistent, interactive } => ActionNode::RunTask {
                target: target.clone(),
                runtime: runtime.clone(),
                persistent: *persistent,
                interactive: *interactive,
            },
        }
    }
}

impl ActionNode {
    /// Whether two nodes denote the same unit of work.
    pub fn same(&self, other: &ActionNode) -> (out: bool)
        ensures
            out == (self@ == other@),
    {
        match (self, other) {
            (
                ActionNode::SetupToolchain { runtime: a },
                ActionNode::SetupToolchain { runtime: b },
            ) => a.same(b),
            (
                ActionNode::InstallDependencies { runtime: a, scope: p },
                ActionNode::InstallDependencies { runtime: b, scope: q },
            ) => {
                let scopes = match (p, q) {
                    (Some(x), Some(y)) => same_text(x, y),
                    (None, None) => true,
                    _ => false,
                };
                a.same(b) && scopes
            },
            (
                ActionNode::SyncProject { runtime: a, project: p },
                ActionNode::SyncProject { runtime: b, project: q },
            ) => a.same(b) && same_text(p, q),
            (
                ActionNode::RunTask { target: s, runtime: a, persistent: x, interactive: y },
                ActionNode::RunTask { target: t, runtime: b, persistent: u, interactive: v },
            ) => s.same(t) && a.same(b) && *x == *u && *y == *v,
            _ => false,
        }
    }

    /// The node in words: its kind and, in brackets, what it acts on.
    pub fn label(&self) -> (out: String)
        ensures
            out@ == self@.label(),
    {
        match self {
            ActionNode::SetupToolchain { runtime } => {
                let mut out = "SetupToolchain(".to_owned();
                out.append(runtime.label().as_str());
                out.append(")");
                out
            },
            ActionNode::InstallDependencies { runtime, scope } => {
                let mut out = "InstallDependencies(".to_owned();
                out.append(runtime.label().as_str());
                match scope {
                    Some(project) => {
                        out.append(", ");
                        out.append(project.as_str());
                    },
                    None => {},
                }
                out.append(")");
                out
            },
            ActionNode::SyncProject { runtime, project } => {
                let mut out = "SyncProject(".to_owned();
                out.append(runtime.label().as_str());
                out.append(", ");
                out.append(project.as_str());
                out.append(")");
                out
            },
            ActionNode::RunTask { target, .. } => {
                let mut out = "RunTask(".to_owned();
                out.append(target.id().as_str());
                out.append(")");
                out
            },
        }
    }

    /// Whether this is a task that never ends by itself.
    pub fn is_persistent(&self) -> (out: bool)
        ensures
            out == self@.is_persistent(),
    {
        match self {
            ActionNode::RunTask { persistent, .. } => *persistent,
            _ => false,
        }
    }

    /// Whether this is a task that needs the terminal for itself.
    pub fn is_interactive(&self) -> (out: bool)
        ensures
            out == self@.is_interactive(),
    {
        match self {
            ActionNode::RunTask { interactive, .. } => *interactive,
            _ => false,
        }
    }
}

} // verus!
