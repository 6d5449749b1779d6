use taskgraph::action::{PlatformType, Runtime};
use taskgraph::deno::{
    cache_args, get_dependency_configs, install_args, install_deps, BinConfig, BinEntry,
    DenoConfig,
};
use taskgraph::node_config::NodePackageManager;
use taskgraph::node_tool::{
    exec_package_args, get_package_manager, installed_count, setup_step, tool_version, SetupStep,
};

fn strings(items: &[&str]) -> Vec<String> {
    items.iter().map(|s| s.to_string()).collect()
}

fn runtime(platform: PlatformType) -> Runtime {
    Runtime { platform, version: "1.30.0".to_string() }
}

fn config(lockfile: bool, bins: Vec<BinEntry>) -> DenoConfig {
    DenoConfig { bins, deps_file: "deps.ts".to_string(), lockfile, plugin: None }
}

fn bin(place: &str, force: bool, local: bool, name: Option<&str>) -> BinEntry {
    BinEntry::Config(BinConfig {
        bin: place.to_string(),
        force,
        local,
        name: name.map(|n| n.to_string()),
    })
}

#[test]
fn deno_serves_its_platform_and_its_runtime() {
    assert!(taskgraph::deno::matches(PlatformType::Deno, None));
    assert!(taskgraph::deno::matches(PlatformType::Deno, Some(&runtime(PlatformType::Node))));
    assert!(taskgraph::deno::matches(PlatformType::Node, Some(&runtime(PlatformType::Deno))));
    assert!(!taskgraph::deno::matches(PlatformType::Node, Some(&runtime(PlatformType::Node))));
    assert!(!taskgraph::deno::matches(PlatformType::Unknown, None));
}

#[test]
fn deno_reads_the_lockfile_and_the_file_of_dependencies() {
    assert_eq!(
        get_dependency_configs(&config(true, vec![])),
        ("deno.lock".to_string(), "deps.ts".to_string())
    );
}

#[test]
fn nothing_is_installed_without_a_lockfile() {
    let bins = vec![BinEntry::Name("https://deno.land/x/a.ts".to_string())];
    assert_eq!(install_deps(&config(false, bins), false), Vec::<Vec<String>>::new());
}

#[test]
fn dependencies_are_cached_and_binaries_installed() {
    let bins = vec![
        BinEntry::Name("https://deno.land/x/a.ts".to_string()),
        bin("https://deno.land/x/b.ts", true, false, Some("bee")),
        bin("https://deno.land/x/c.ts", false, true, None),
    ];
    let cfg = config(true, bins);
    let head = ["install", "--allow-net", "--allow-read", "--no-prompt", "--lock", "deno.lock"];
    let mut first = strings(&head);
    first.push("https://deno.land/x/a.ts".to_string());
    let mut second = strings(&head);
    second.extend(strings(&["--force", "--name", "bee", "https://deno.land/x/b.ts"]));
    let mut third = strings(&head);
    third.push("https://deno.land/x/c.ts".to_string());
    let cache = strings(&["cache", "--lock", "deno.lock", "--lock-write", "deps.ts"]);

    assert_eq!(cache_args(&cfg), cache);
    assert_eq!(
        install_deps(&cfg, false),
        vec![cache.clone(), first.clone(), second.clone(), third.clone()]
    );
    assert_eq!(install_deps(&cfg, true), vec![cache, first, second]);
    assert_eq!(install_args(&cfg.bins[2], true), None);
    assert_eq!(install_args(&cfg.bins[2], false), Some(third));
}

#[test]
fn the_tool_has_a_version_unless_it_is_the_one_of_the_machine() {
    assert_eq!(tool_version(true, "18.0.0"), None);
    assert_eq!(tool_version(false, "18.0.0"), Some("18.0.0".to_string()));
}

#[test]
fn a_package_runs_quietly() {
    assert_eq!(
        exec_package_args("packemon", &strings(&["build", "--watch"])),
        strings(&["--silent", "--package", "packemon", "--", "build", "--watch"])
    );
    assert_eq!(
        exec_package_args("p", &strings(&[])),
        strings(&["--silent", "--package", "p", "--"])
    );
}

#[test]
fn pnpm_comes_before_yarn_and_yarn_before_npm() {
    assert_eq!(get_package_manager(true, true, true), NodePackageManager::Pnpm);
    assert_eq!(get_package_manager(true, false, true), NodePackageManager::Yarn);
    assert_eq!(get_package_manager(true, false, false), NodePackageManager::Npm);
    assert_eq!(get_package_manager(false, true, false), NodePackageManager::Pnpm);
    assert_eq!(get_package_manager(false, false, true), NodePackageManager::Yarn);
}

#[test]
fn steps_of_the_setup() {
    let v = "18.0.0".to_string();
    let other = "16.0.0".to_string();
    assert_eq!(setup_step(None, false, false, None, false), SetupStep::Nothing);
    assert_eq!(setup_step(Some(&v), true, true, None, false), SetupStep::Nothing);
    assert_eq!(setup_step(Some(&v), false, true, None, false), SetupStep::UseGlobal);
    assert_eq!(setup_step(Some(&v), false, false, None, true), SetupStep::Install);
    assert_eq!(setup_step(Some(&v), false, false, Some(&other), true), SetupStep::Install);
    assert_eq!(setup_step(Some(&v), false, false, Some(&v), false), SetupStep::Install);
    assert_eq!(setup_step(Some(&v), false, false, Some(&v), true), SetupStep::Nothing);
}

#[test]
fn counts_what_was_installed() {
    assert_eq!(installed_count(true, 1, 0, 1), Some(3));
    assert_eq!(installed_count(false, 0, 0, 0), Some(0));
    assert_eq!(installed_count(true, 255, 0, 0), None);
    assert_eq!(installed_count(false, 200, 55, 0), Some(255));
    assert_eq!(installed_count(false, 200, 55, 1), None);
}
