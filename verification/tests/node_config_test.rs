use taskgraph::node_config::{
    find_value, NodeConfig, NodePackageManager, NodeProjectAliasFormat, NodeVersionFormat,
    NodeVersionManager, NpmConfig, PnpmConfig, ProtoTools, YarnConfig,
};

fn pairs(items: &[(&str, &str)]) -> Vec<(String, String)> {
    items.iter().map(|(k, v)| (k.to_string(), v.to_string())).collect()
}

fn proto(tools: &[(&str, &str)], plugins: &[(&str, &str)]) -> ProtoTools {
    ProtoTools { tools: pairs(tools), plugins: pairs(plugins) }
}

#[test]
fn prefixes_of_version_formats() {
    assert_eq!(NodeVersionFormat::File.get_prefix(), "file:");
    assert_eq!(NodeVersionFormat::Link.get_prefix(), "link:");
    assert_eq!(NodeVersionFormat::Star.get_prefix(), "*");
    assert_eq!(NodeVersionFormat::Version.get_prefix(), "");
    assert_eq!(NodeVersionFormat::VersionCaret.get_prefix(), "^");
    assert_eq!(NodeVersionFormat::VersionTilde.get_prefix(), "~");
    assert_eq!(NodeVersionFormat::Workspace.get_prefix(), "workspace:*");
    assert_eq!(NodeVersionFormat::WorkspaceCaret.get_prefix(), "workspace:^");
    assert_eq!(NodeVersionFormat::WorkspaceTilde.get_prefix(), "workspace:~");
}

#[test]
fn defaults() {
    assert_eq!(NodeVersionFormat::default(), NodeVersionFormat::Workspace);
    assert_eq!(NodeProjectAliasFormat::default(), NodeProjectAliasFormat::NameAndScope);
    assert_eq!(NodePackageManager::default(), NodePackageManager::Npm);
    assert_eq!(NodeVersionManager::default(), NodeVersionManager::Nvm);
    let config = NodeConfig::default();
    assert!(config.add_engines_constraint);
    assert!(config.dedupe_on_lockfile_change);
    assert!(!config.infer_tasks_from_scripts);
    assert!(config.sync_project_workspace_dependencies);
    assert_eq!(config.npm, NpmConfig { plugin: None, version: None });
    assert_eq!(config.pnpm, None);
    assert_eq!(config.yarn, None);
    assert_eq!(YarnConfig::default().plugins, Vec::<String>::new());
    assert_eq!(PnpmConfig::default().version, None);
}

#[test]
fn finds_the_first_value() {
    let list = pairs(&[("node", "18.0.0"), ("npm", "8.0.0"), ("node", "20.0.0")]);
    assert_eq!(find_value(&list, "node"), Some("18.0.0".to_string()));
    assert_eq!(find_value(&list, "npm"), Some("8.0.0".to_string()));
    assert_eq!(find_value(&list, "yarn"), None);
}

#[test]
fn npm_inherits_version_and_plugin() {
    let mut config = NodeConfig::default();
    config.inherit_proto(&proto(
        &[("npm", "8.0.0"), ("pnpm", "7.0.0")],
        &[("npm", "source:npm"), ("node", "source:node")],
    ));
    assert_eq!(config.npm.version.as_deref(), Some("8.0.0"));
    assert_eq!(config.npm.plugin.as_deref(), Some("source:npm"));
    assert_eq!(config.plugin.as_deref(), Some("source:node"));
    assert_eq!(config.pnpm, None);
    assert_eq!(config.yarn, None);
    assert_eq!(config.version, None);
}

#[test]
fn proto_version_doesnt_override_what_is_set() {
    let mut config = NodeConfig::default();
    config.npm.version = Some("9.0.0".to_string());
    config.plugin = Some("mine".to_string());
    config.inherit_proto(&proto(&[("npm", "8.0.0")], &[("node", "theirs")]));
    assert_eq!(config.npm.version.as_deref(), Some("9.0.0"));
    assert_eq!(config.npm.plugin, None);
    assert_eq!(config.plugin.as_deref(), Some("mine"));
}

#[test]
fn the_package_manager_in_use_is_set() {
    let mut config = NodeConfig { package_manager: NodePackageManager::Pnpm, ..NodeConfig::default() };
    config.inherit_proto(&proto(&[], &[("pnpm", "source:pnpm")]));
    assert_eq!(
        config.pnpm,
        Some(PnpmConfig { plugin: Some("source:pnpm".to_string()), version: None })
    );
    assert_eq!(config.yarn, None);

    let mut config = NodeConfig { package_manager: NodePackageManager::Yarn, ..NodeConfig::default() };
    config.inherit_proto(&proto(&[("yarn", "3.0.0")], &[]));
    assert_eq!(
        config.yarn,
        Some(YarnConfig { plugin: None, plugins: vec![], version: Some("3.0.0".to_string()) })
    );
    assert_eq!(config.pnpm, None);
}

#[test]
fn an_optional_tool_is_enabled_by_a_pinned_version() {
    let mut config = NodeConfig::default();
    config.inherit_proto_pnpm(&proto(&[], &[("pnpm", "source:pnpm")]));
    assert_eq!(config.pnpm, None);
    config.inherit_proto_pnpm(&proto(&[("pnpm", "8.0.0")], &[("pnpm", "source:pnpm")]));
    assert_eq!(
        config.pnpm,
        Some(PnpmConfig {
            plugin: Some("source:pnpm".to_string()),
            version: Some("8.0.0".to_string())
        })
    );
    config.inherit_proto_pnpm(&proto(&[("pnpm", "9.0.0")], &[("pnpm", "other")]));
    assert_eq!(config.pnpm.as_ref().unwrap().version.as_deref(), Some("8.0.0"));
    assert_eq!(config.pnpm.as_ref().unwrap().plugin.as_deref(), Some("source:pnpm"));

    let mut config = NodeConfig::default();
    config.yarn = Some(YarnConfig {
        plugin: None,
        plugins: vec!["workspace-tools".to_string()],
        version: Some("9.0.0".to_string()),
    });
    config.inherit_proto_yarn(&proto(&[("yarn", "8.0.0")], &[("yarn", "source:yarn")]));
    let yarn = config.yarn.unwrap();
    assert_eq!(yarn.version.as_deref(), Some("9.0.0"));
    assert_eq!(yarn.plugin.as_deref(), Some("source:yarn"));
    assert_eq!(yarn.plugins, vec!["workspace-tools".to_string()]);
}
