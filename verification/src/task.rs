//! The command that shows one task: what it is asked with, and the entries
//! that it prints.

use vstd::prelude::*;
use crate::target::{ScopeView, Target, TargetScope};
use crate::text::{join_with, joined_with};

verus! {

/// What the command is asked with.
#[derive(Debug, PartialEq, Eq)]
pub struct TaskArgs {
    /// The target of the task to show.
    pub target: Target,
    /// Print as JSON.
    pub json: bool,
}

/// The target names no project.
#[derive(Clone, Copy, Debug, PartialEq, Eq, Structural)]
pub struct ProjectRequired;

impl ProjectRequired {
    /// The failure in words.
    pub fn message(&self) -> (out: String)
        ensures
            out@ == "A project ID is required."@,
    {
        "A project ID is required.".to_owned()
    }
}

impl TaskArgs {
    /// The id of the project whose task is asked for. Fails where the
    /// target has another scope than that of one project.
    pub fn project_id(&self) -> (out: Result<String, ProjectRequired>)
        ensures
            match self.target@.scope {
                ScopeView::Project(id) => out matches Ok(found) && found@ == id,
                _ => out is Err,
            },
    {
        match &self.target.scope {
            TargetScope::Project(id) => Ok(id.clone()),
            _ => Err(ProjectRequired),
        }
    }
}

/// The command of a task with its arguments, as one line.
pub fn command_line(command: &str, args: &Vec<String>) -> (out: String)
    ensures
        out@ == command@ + " "@ + joined_with(args.deep_view(), " "@, args.len() as int),
{
    let mut out = command.to_owned();
    out.append(" ");
    out.append(join_with(args, " ").as_str());
    out
}

/// An environment variable and its value, as one entry.
pub fn env_entry(key: &str, equals: &str, value: &str) -> (out: String)
    ensures
        out@ == key@ + " "@ + equals@ + " "@ + value@,
{
    let mut out = key.to_owned();
    out.append(" ");
    out.append(equals);
    out.append(" ");
    out.append(value);
    out
}

/// How the dependencies of a task run.
pub open spec fn deps_mode_text(parallel: bool) -> Seq<char> {
    if parallel {
        "Concurrently"@
    } else {
        "Serially"@
    }
}

/// How the dependencies of a task run, in a word.
pub fn deps_mode(parallel: bool) -> (out: String)
    ensures
        out@ == deps_mode_text(parallel),
{
    if parallel {
        "Concurrently".to_owned()
    } else {
        "Serially".to_owned()
    }
}

/// Whether a section of the output is shown: it is when one of the two
/// lists that it prints has an entry.
pub fn section_shown(first: usize, second: usize) -> (out: bool)
    ensures
        out == (first != 0 || second != 0),
{
    first != 0 || second != 0
}

} // verus!
