//! The Deno platform: which tasks it serves, and the commands with which it
//! installs dependencies.

use vstd::prelude::*;
use crate::action::{PlatformType, Runtime};

verus! {

/// The name of the lockfile of Deno.
pub open spec fn lockfile_name() -> Seq<char> {
    "deno.lock"@
}

/// A binary to install, with its settings.
#[derive(Debug, PartialEq, Eq)]
pub struct BinConfig {
    /// The place of the binary.
    pub bin: String,
    /// Install it over an existing one.
    pub force: bool,
    /// Install it on the machines of developers only.
    pub local: bool,
    /// The name to install it under.
    pub name: Option<String>,
}

/// A binary to install.
#[derive(Debug, PartialEq, Eq)]
pub enum BinEntry {
    /// By its place alone.
    Name(String),
    /// With settings.
    Config(BinConfig),
}

/// The mathematical value of a [`BinEntry`].
pub enum BinView {
    Name(Seq<char>),
    Config { bin: Seq<char>, force: bool, local: bool, name: Option<Seq<char>> },
}

impl View for BinEntry {
    type V = BinView;

    open spec fn view(&self) -> BinView {
        match self {
            BinEntry::Name(bin) => BinView::Name(bin@),
            BinEntry::Config(config) => BinView::Config {
                bin: config.bin@,
                force: config.force,
                local: config.local,
                name: config.name.deep_view(),
            },
        }
    }
}

impl DeepView for BinEntry {
    type V = BinView;

    open spec fn deep_view(&self) -> BinView {
        self@
    }
}

/// The settings of the Deno toolchain.
#[derive(Debug, PartialEq, Eq)]
pub struct DenoConfig {
    /// The binaries to install.
    pub bins: Vec<BinEntry>,
    /// The file that lists the dependencies.
    pub deps_file: String,
    /// Whether a lockfile is kept.
    pub lockfile: bool,
    /// The place of the plugin that installs Deno.
    pub plugin: Option<String>,
}

/// Whether the platform serves a task: it does where the platform of the
/// task is Deno, or the task has a runtime and it is one of Deno.
pub fn matches(platform: PlatformType, runtime: Option<&Runtime>) -> (out: bool)
    ensures
        out == (platform == PlatformType::Deno || (runtime matches Some(r) && r.platform
            == PlatformType::Deno)),
{
    if platform == PlatformType::Deno {
        return true;
    }
    match runtime {
        Some(r) => r.platform == PlatformType::Deno,
        None => false,
    }
}

/// The lockfile and the file of dependencies that the platform reads.
pub fn get_dependency_configs(config: &DenoConfig) -> (out: (String, String))
    ensures
        out.0@ == lockfile_name(),
        out.1@ == config.deps_file@,
{
    ("deno.lock".to_owned(), config.deps_file.clone())
}

fn push_arg(args: &mut Vec<String>, arg: String)
    ensures
        final(args).deep_view() == old(args).deep_view().push(arg@),
{
    let ghost before = args.deep_view();
    let ghost added = arg@;
    args.push(arg);
    assert(args.deep_view() =~= before.push(added));
}

/// The arguments of the command that caches the dependencies and writes
/// the lockfile.
pub open spec fn cache_command(deps_file: Seq<char>) -> Seq<Seq<char>> {
    seq!["cache"@, "--lock"@, lockfile_name(), "--lock-write"@, deps_file]
}

/// The arguments of the command that installs a binary, or `None` where
/// the binary is for the machines of developers only and this is a machine
/// of continuous integration.
pub open spec fn install_command(bin: BinView, in_ci: bool) -> Option<Seq<Seq<char>>> {
    let head = seq![
        "install"@,
        "--allow-net"@,
        "--allow-read"@,
        "--no-prompt"@,
        "--lock"@,
        lockfile_name(),
    ];
    match bin {
        BinView::Name(place) => Some(head.push(place)),
        BinView::Config { bin, force, local, name } => if local && in_ci {
            None
        } else {
            let forced = if force {
                head.push("--force"@)
            } else {
                head
            };
            let named = match name {
                Some(n) => forced.push("--name"@).push(n),
                None => forced,
            };
            Some(named.push(bin))
        },
    }
}

/// The commands that install the first `upto` binaries.
pub open spec fn install_commands(bins: Seq<BinView>, in_ci: bool, upto: int) -> Seq<
    Seq<Seq<char>>,
>
    decreases upto,
{
    if upto <= 0 {
        Seq::empty()
    } else {
        let rest = install_commands(bins, in_ci, upto - 1);
        match install_command(bins[upto - 1], in_ci) {
            Some(command) => rest.push(command),
            None => rest,
        }
    }
}

/// The commands that install the dependencies: none without a lockfile;
/// else the command that caches them, then one for each binary.
pub open spec fn install_plan(
    bins: Seq<BinView>,
    deps_file: Seq<char>,
    lockfile: bool,
    in_ci: bool,
) -> Seq<Seq<Seq<char>>> {
    if !lockfile {
        Seq::empty()
    } else {
        seq![cache_command(deps_file)] + install_commands(bins, in_ci, bins.len() as int)
    }
}

/// The arguments of the command that caches the dependencies.
pub fn cache_args(config: &DenoConfig) -> (out: Vec<String>)
    ensures
        out.deep_view() == cache_command(config.deps_file@),
{
    let mut args: Vec<String> = Vec::new();
    assert(args.deep_view() =~= Seq::<Seq<char>>::empty());
    push_arg(&mut args, "cache".to_owned());
    push_arg(&mut args, "--lock".to_owned());
    push_arg(&mut args, "deno.lock".to_owned());
    push_arg(&mut args, "--lock-write".to_owned());
    push_arg(&mut args, config.deps_file.clone());
    assert(args.deep_view() =~= cache_command(config.deps_file@));
    args
}

/// The arguments of the command that installs a binary, if it is to be
/// installed on this machine.
pub fn install_args(bin: &BinEntry, in_ci: bool) -> (out: Option<Vec<String>>)
    ensures
        out.deep_view() == install_command(bin@, in_ci),
{
    let mut args: Vec<String> = Vec::new();
    assert(args.deep_view() =~= Seq::<Seq<char>>::empty());
    push_arg(&mut args, "install".to_owned());
    push_arg(&mut args, "--allow-net".to_owned());
    push_arg(&mut args, "--allow-read".to_owned());
    push_arg(&mut args, "--no-prompt".to_owned());
    push_arg(&mut args, "--lock".to_owned());
    push_arg(&mut args, "deno.lock".to_owned());
    let ghost head = seq![
        "install"@,
        "--allow-net"@,
        "--allow-read"@,
        "--no-prompt"@,
        "--lock"@,
        lockfile_name(),
    ];
    assert(args.deep_view() =~= head);
    match bin {
        BinEntry::Name(place) => {
            push_arg(&mut args, place.clone());
        },
        BinEntry::Config(config) => {
            if config.local && in_ci {
                return None;
            }
            if config.force {
                push_arg(&mut args, "--force".to_owned());
            }
            match &config.name {
                Some(name) => {
                    push_arg(&mut args, "--name".to_owned());
                    push_arg(&mut args, name.clone());
                },
                None => {},
            }
            push_arg(&mut args, config.bin.clone());
        },
    }
    Some(args)
}

/// The commands that install the dependencies, in the order in which they
/// run. `in_ci` says whether this is a machine of continuous integration.
pub fn install_deps(config: &DenoConfig, in_ci: bool) -> (out: Vec<Vec<String>>)
    ensures
        out.deep_view() == install_plan(
            config.bins.deep_view(),
            config.deps_file@,
            config.lockfile,
            in_ci,
        ),
{
    let ghost bins = config.bins.deep_view();
    let mut plan: Vec<Vec<String>> = Vec::new();
    assert(plan.deep_view() =~= Seq::<Seq<Seq<char>>>::empty());
    if !config.lockfile {
        return plan;
    }
    let cache = cache_args(config);
    let ghost first = cache.deep_view();
    plan.push(cache);
    assert(plan.deep_view() =~= seq![first] + install_commands(bins, in_ci, 0));
    let mut i: usize = 0;
    while i < config.bins.len()
        invariant
            i <= config.bins.len(),
            bins == config.bins.deep_view(),
            first == cache_command(config.deps_file@),
            plan.deep_view() == seq![first] + install_commands(bins, in_ci, i as int),
        decreases config.bins.len() - i,
    {
        assert(bins[i as int] == config.bins[i as int]@);
        let ghost before = plan.deep_view();
        match install_args(&config.bins[i], in_ci) {
            Some(args) => {
                let ghost added = args.deep_view();
                plan.push(args);
                assert(plan.deep_view() =~= before.push(added));
                assert(plan.deep_view() =~= seq![first] + install_commands(
                    bins,
                    in_ci,
                    i as int + 1,
                ));
            },
            None => {},
        }
        i += 1;
    }
    plan
}

} // verus!
