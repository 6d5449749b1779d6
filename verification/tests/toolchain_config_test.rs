use taskgraph::node_config::{
    NodeConfig, NodePackageManager, PnpmConfig, ProtoTools, YarnConfig,
};

const NODE_PLUGIN: &str =
    "https://github.com/moonrepo/node-plugin/releases/latest/download/node_plugin.wasm";
const DEPMAN_PLUGIN: &str =
    "https://github.com/moonrepo/node-plugin/releases/latest/download/node_depman_plugin.wasm";

fn builtin_plugins() -> ProtoTools {
    ProtoTools {
        tools: vec![],
        plugins: vec![
            ("node".to_string(), NODE_PLUGIN.to_string()),
            ("npm".to_string(), DEPMAN_PLUGIN.to_string()),
            ("pnpm".to_string(), DEPMAN_PLUGIN.to_string()),
            ("yarn".to_string(), DEPMAN_PLUGIN.to_string()),
        ],
    }
}

fn pinned(tool: &str, version: &str) -> ProtoTools {
    ProtoTools { tools: vec![(tool.to_string(), version.to_string())], plugins: vec![] }
}

#[test]
fn toolchain_config_test_uses_defaults() {
    let cfg = NodeConfig::default();

    assert!(cfg.dedupe_on_lockfile_change);
    assert!(!cfg.infer_tasks_from_scripts);
}

#[test]
fn toolchain_config_test_inherits_plugin_locator() {
    // node
    let mut config = NodeConfig::default();
    config.inherit_proto(&builtin_plugins());
    assert_eq!(config.plugin.unwrap(), NODE_PLUGIN);

    // npm
    let mut config = NodeConfig::default();
    config.inherit_proto(&builtin_plugins());
    assert_eq!(config.npm.plugin.unwrap(), DEPMAN_PLUGIN);

    // pnpm
    let mut config = NodeConfig {
        package_manager: NodePackageManager::Pnpm,
        pnpm: Some(PnpmConfig::default()),
        ..NodeConfig::default()
    };
    config.inherit_proto(&builtin_plugins());
    assert_eq!(config.pnpm.unwrap().plugin.unwrap(), DEPMAN_PLUGIN);

    // yarn
    let mut config = NodeConfig {
        package_manager: NodePackageManager::Yarn,
        yarn: Some(YarnConfig::default()),
        ..NodeConfig::default()
    };
    config.inherit_proto(&builtin_plugins());
    assert_eq!(config.yarn.unwrap().plugin.unwrap(), DEPMAN_PLUGIN);
}

#[test]
fn toolchain_config_test_inherits_plugin_locator_when_none() {
    let mut config =
        NodeConfig { package_manager: NodePackageManager::Pnpm, ..NodeConfig::default() };
    config.inherit_proto(&builtin_plugins());
    assert_eq!(config.pnpm.unwrap().plugin.unwrap(), DEPMAN_PLUGIN);

    let mut config =
        NodeConfig { package_manager: NodePackageManager::Yarn, ..NodeConfig::default() };
    config.inherit_proto(&builtin_plugins());
    assert_eq!(config.yarn.unwrap().plugin.unwrap(), DEPMAN_PLUGIN);
}

#[test]
fn toolchain_config_test_enables_when_defined() {
    let mut config = NodeConfig::default();
    config.inherit_proto(&ProtoTools { tools: vec![], plugins: vec![] });
    assert!(config.pnpm.is_none());
    assert!(config.yarn.is_none());

    let mut config = NodeConfig {
        pnpm: Some(PnpmConfig::default()),
        yarn: Some(YarnConfig::default()),
        ..NodeConfig::default()
    };
    config.inherit_proto(&ProtoTools { tools: vec![], plugins: vec![] });
    assert!(config.pnpm.is_some());
    assert!(config.yarn.is_some());
}

#[test]
fn toolchain_config_test_proto_version_doesnt_override() {
    // npm
    let mut config = NodeConfig::default();
    config.npm.version = Some("9.0.0".to_string());
    config.inherit_proto(&pinned("npm", "8.0.0"));
    assert_eq!(config.npm.version.unwrap(), "9.0.0");

    // pnpm
    let mut config = NodeConfig {
        pnpm: Some(PnpmConfig { plugin: None, version: Some("9.0.0".to_string()) }),
        ..NodeConfig::default()
    };
    config.inherit_proto(&pinned("pnpm", "8.0.0"));
    config.inherit_proto_pnpm(&pinned("pnpm", "8.0.0"));
    assert_eq!(config.pnpm.unwrap().version.unwrap(), "9.0.0");

    // yarn
    let mut config = NodeConfig {
        yarn: Some(YarnConfig {
            plugin: None,
            plugins: vec![],
            version: Some("9.0.0".to_string()),
        }),
        ..NodeConfig::default()
    };
    config.inherit_proto(&pinned("yarn", "8.0.0"));
    config.inherit_proto_yarn(&pinned("yarn", "8.0.0"));
    assert_eq!(config.yarn.unwrap().version.unwrap(), "9.0.0");
}
