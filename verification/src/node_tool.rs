//! The Node.js tool: the decisions of its setup, and the command lines that
//! it runs.

use vstd::prelude::*;
use crate::node_config::NodePackageManager;
use crate::text::same_text;

verus! {

/// The version that the tool is set to: none where the version on the
/// machine is used as it is found, else the number.
pub fn tool_version(global: bool, number: &str) -> (out: Option<String>)
    ensures
        global ==> out is None,
        !global ==> (out matches Some(v) && v@ == number@),
{
    if global {
        None
    } else {
        Some(number.to_owned())
    }
}

/// The arguments with which a package is run: quietly, the package, and
/// after two dashes the arguments of the package itself.
pub open spec fn package_command(package: Seq<char>, args: Seq<Seq<char>>) -> Seq<Seq<char>> {
    seq!["--silent"@, "--package"@, package, "--"@] + args
}

/// The arguments with which a package is run.
pub fn exec_package_args(package: &str, args: &Vec<String>) -> (out: Vec<String>)
    ensures
        out.deep_view() == package_command(package@, args.deep_view()),
{
    let ghost rest = args.deep_view();
    let mut out: Vec<String> = Vec::new();
    out.push("--silent".to_owned());
    out.push("--package".to_owned());
    out.push(package.to_owned());
    out.push("--".to_owned());
    let ghost head = seq!["--silent"@, "--package"@, package@, "--"@];
    assert(out.deep_view() =~= head + rest.take(0));
    let mut i: usize = 0;
    while i < args.len()
        invariant
            i <= args.len(),
            rest == args.deep_view(),
            out.deep_view() == head + rest.take(i as int),
        decreases args.len() - i,
    {
        let ghost before = out.deep_view();
        out.push(args[i].clone());
        assert(out.deep_view() =~= before.push(rest[i as int]));
        assert(out.deep_view() =~= head + rest.take(i as int + 1));
        i += 1;
    }
    assert(rest.take(args.len() as int) =~= rest);
    out
}

/// The package manager in use, of those that are set up: pnpm before yarn,
/// and yarn before npm.
pub fn get_package_manager(has_npm: bool, has_pnpm: bool, has_yarn: bool) -> (out: NodePackageManager)
    requires
        has_npm || has_pnpm || has_yarn,
    ensures
        out == (if has_pnpm {
            NodePackageManager::Pnpm
        } else if has_yarn {
            NodePackageManager::Yarn
        } else {
            NodePackageManager::Npm
        }),
{
    if has_pnpm {
        NodePackageManager::Pnpm
    } else if has_yarn {
        NodePackageManager::Yarn
    } else {
        NodePackageManager::Npm
    }
}

/// What the setup of the tool does about Node.js itself.
#[derive(Clone, Copy, Debug, PartialEq, Eq, Structural)]
pub enum SetupStep {
    /// Nothing: no version is asked for, or it is set up, or it was
    /// installed before and is still there.
    Nothing,
    /// Use the version that is found on the machine.
    UseGlobal,
    /// Install the version.
    Install,
}

/// What the setup does about Node.js: nothing without a version or where
/// the version is set up; without a connection, the version on the machine
/// is used; else the version is installed, unless it is the one that was
/// installed last and its directory still exists.
pub open spec fn setup_step_of(
    version: Option<Seq<char>>,
    is_setup: bool,
    offline: bool,
    last: Option<Seq<char>>,
    dir_exists: bool,
) -> SetupStep {
    match version {
        None => SetupStep::Nothing,
        Some(v) => if is_setup {
            SetupStep::Nothing
        } else if offline {
            SetupStep::UseGlobal
        } else if last != Some(v) || !dir_exists {
            SetupStep::Install
        } else {
            SetupStep::Nothing
        },
    }
}

/// What the setup does about Node.js.
pub fn setup_step(
    version: Option<&String>,
    is_setup: bool,
    offline: bool,
    last: Option<&String>,
    dir_exists: bool,
) -> (out: SetupStep)
    ensures
        out == setup_step_of(version.deep_view(), is_setup, offline, last.deep_view(), dir_exists),
{
    let v = match version {
        Some(v) => v,
        None => {
            return SetupStep::Nothing;
        },
    };
    if is_setup {
        SetupStep::Nothing
    } else if offline {
        SetupStep::UseGlobal
    } else {
        let changed = match last {
            Some(l) => !same_text(v, l),
            None => true,
        };
        if changed || !dir_exists {
            SetupStep::Install
        } else {
            SetupStep::Nothing
        }
    }
}

/// The number of tools that a setup has installed: Node.js if it was, and
/// what each package manager reports.
pub fn installed_count(node: bool, npm: u8, pnpm: u8, yarn: u8) -> (out: Option<u8>)
    ensures
        out matches Some(n) ==> n == (if node { 1int } else { 0int }) + npm + pnpm + yarn,
        out is None <==> (if node { 1int } else { 0int }) + npm + pnpm + yarn > u8::MAX,
{
    let first: u8 = if node {
        1
    } else {
        0
    };
    match first.checked_add(npm) {
        None => None,
        Some(a) => match a.checked_add(pnpm) {
            None => None,
            Some(b) => b.checked_add(yarn),
        },
    }
}

} // verus!
