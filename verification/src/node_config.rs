//! The settings of the Node.js toolchain, and what they take over from the
//! versions and plugins that a version manager pins.

use vstd::prelude::*;
use crate::text::same_text;

verus! {

/// How the alias of a project is made from the name of its package.
#[derive(Clone, Copy, Debug, PartialEq, Eq, Structural)]
pub enum NodeProjectAliasFormat {
    /// `@scope/name`
    NameAndScope,
    /// `name`
    NameOnly,
}

/// How the version of a dependency between projects is written into a
/// package manifest.
#[derive(Clone, Copy, Debug, PartialEq, Eq, Structural)]
pub enum NodeVersionFormat {
    /// `file:..`
    File,
    /// `link:..`
    Link,
    /// `*`
    Star,
    /// `0.0.0`
    Version,
    /// `^0.0.0`
    VersionCaret,
    /// `~0.0.0`
    VersionTilde,
    /// `workspace:*`
    Workspace,
    /// `workspace:^`
    WorkspaceCaret,
    /// `workspace:~`
    WorkspaceTilde,
}

impl NodeVersionFormat {
    /// The text that stands before the version or path.
    pub open spec fn prefix_text(self) -> Seq<char> {
        match self {
            NodeVersionFormat::File => "file:"@,
            NodeVersionFormat::Link => "link:"@,
            NodeVersionFormat::Star => "*"@,
            NodeVersionFormat::Version => ""@,
            NodeVersionFormat::VersionCaret => "^"@,
            NodeVersionFormat::VersionTilde => "~"@,
            NodeVersionFormat::Workspace => "workspace:*"@,
            NodeVersionFormat::WorkspaceCaret => "workspace:^"@,
            NodeVersionFormat::WorkspaceTilde => "workspace:~"@,
        }
    }

    /// The text that stands before the version or path.
    pub fn get_prefix(&self) -> (out: String)
        ensures
            out@ == self.prefix_text(),
    {
        match self {
            NodeVersionFormat::File => "file:".to_owned(),
            NodeVersionFormat::Link => "link:".to_owned(),
            NodeVersionFormat::Star => "*".to_owned(),
            NodeVersionFormat::Version => "".to_owned(),
            NodeVersionFormat::VersionCaret => "^".to_owned(),
            NodeVersionFormat::VersionTilde => "~".to_owned(),
            NodeVersionFormat::Workspace => "workspace:*".to_owned(),
            NodeVersionFormat::WorkspaceCaret => "workspace:^".to_owned(),
            NodeVersionFormat::WorkspaceTilde => "workspace:~".to_owned(),
        }
    }
}

impl Default for NodeVersionFormat {
    fn default() -> (out: Self)
        ensures
            out == NodeVersionFormat::Workspace,
    {
        NodeVersionFormat::Workspace
    }
}

impl Default for NodeProjectAliasFormat {
    fn default() -> (out: Self)
        ensures
            out == NodeProjectAliasFormat::NameAndScope,
    {
        NodeProjectAliasFormat::NameAndScope
    }
}

/// The package manager of a Node.js workspace.
#[derive(Clone, Copy, Debug, PartialEq, Eq, Structural)]
pub enum NodePackageManager {
    Npm,
    Pnpm,
    Yarn,
}

impl Default for NodePackageManager {
    fn default() -> (out: Self)
        ensures
            out == NodePackageManager::Npm,
    {
        NodePackageManager::Npm
    }
}

/// The version manager whose file is kept in step with the toolchain.
#[derive(Clone, Copy, Debug, PartialEq, Eq, Structural)]
pub enum NodeVersionManager {
    Nodenv,
    Nvm,
}

impl Default for NodeVersionManager {
    fn default() -> (out: Self)
        ensures
            out == NodeVersionManager::Nvm,
    {
        NodeVersionManager::Nvm
    }
}

/// What a version manager pins: for each tool a version, and for each tool
/// the place of its plugin. Where a tool is listed twice, the first entry
/// counts.
#[derive(Debug, PartialEq, Eq)]
pub struct ProtoTools {
    /// Pairs of a tool and its version.
    pub tools: Vec<(String, String)>,
    /// Pairs of a tool and the place of its plugin.
    pub plugins: Vec<(String, String)>,
}

/// The value of the first pair from `from` on whose key is `key`.
pub open spec fn value_from(pairs: Seq<(Seq<char>, Seq<char>)>, key: Seq<char>, from: int) -> Option<
    Seq<char>,
>
    decreases pairs.len() - from,
{
    if from < 0 || from >= pairs.len() {
        None
    } else if pairs[from].0 == key {
        Some(pairs[from].1)
    } else {
        value_from(pairs, key, from + 1)
    }
}

/// The value that `pairs` gives for `key`.
pub open spec fn value_of(pairs: Seq<(Seq<char>, Seq<char>)>, key: Seq<char>) -> Option<Seq<char>> {
    value_from(pairs, key, 0)
}

/// The value that `pairs` gives for `key`, if any.
pub fn find_value(pairs: &Vec<(String, String)>, key: &str) -> (out: Option<String>)
    ensures
        out.deep_view() == value_of(pairs.deep_view(), key@),
{
    let wanted = key.to_owned();
    let ghost all = pairs.deep_view();
    let mut i: usize = 0;
    while i < pairs.len()
        invariant
            i <= pairs.len(),
            all == pairs.deep_view(),
            wanted@ == key@,
            value_of(all, key@) == value_from(all, key@, i as int),
        decreases pairs.len() - i,
    {
        assert(all[i as int] == (pairs[i as int].0@, pairs[i as int].1@));
        if same_text(&pairs[i].0, &wanted) {
            let found = pairs[i].1.clone();
            assert(found@ == all[i as int].1);
            assert(value_from(all, key@, i as int) == Some(all[i as int].1));
            return Some(found);
        }
        i += 1;
    }
    None
}

/// What is set takes precedence over what is inherited.
pub open spec fn or_else(own: Option<Seq<char>>, inherited: Option<Seq<char>>) -> Option<Seq<char>> {
    if own is Some {
        own
    } else {
        inherited
    }
}

fn inherit(own: &mut Option<String>, inherited: Option<String>)
    ensures
        final(own).deep_view() == or_else(old(own).deep_view(), inherited.deep_view()),
{
    if own.is_none() {
        *own = inherited;
    }
}

/// The settings of npm.
#[derive(Debug, PartialEq, Eq)]
pub struct NpmConfig {
    /// The place of the plugin that installs npm.
    pub plugin: Option<String>,
    pub version: Option<String>,
}

/// The settings of pnpm.
#[derive(Debug, PartialEq, Eq)]
pub struct PnpmConfig {
    /// The place of the plugin that installs pnpm.
    pub plugin: Option<String>,
    pub version: Option<String>,
}

/// The settings of yarn.
#[derive(Debug, PartialEq, Eq)]
pub struct YarnConfig {
    /// The place of the plugin that installs yarn.
    pub plugin: Option<String>,
    /// The yarn plugins to install.
    pub plugins: Vec<String>,
    pub version: Option<String>,
}

/// The settings of the Node.js toolchain.
#[derive(Debug, PartialEq, Eq)]
pub struct NodeConfig {
    pub add_engines_constraint: bool,
    pub alias_package_names: NodeProjectAliasFormat,
    pub bin_exec_args: Vec<String>,
    pub dedupe_on_lockfile_change: bool,
    pub dependency_version_format: NodeVersionFormat,
    pub infer_tasks_from_scripts: bool,
    pub npm: NpmConfig,
    pub package_manager: NodePackageManager,
    /// The place of the plugin that installs Node.js.
    pub plugin: Option<String>,
    pub pnpm: Option<PnpmConfig>,
    pub sync_project_workspace_dependencies: bool,
    pub sync_version_manager_config: Option<NodeVersionManager>,
    pub version: Option<String>,
    pub yarn: Option<YarnConfig>,
}

impl Default for NpmConfig {
    fn default() -> (out: Self)
        ensures
            out.plugin is None,
            out.version is None,
    {
        NpmConfig { plugin: None, version: None }
    }
}

impl Default for PnpmConfig {
    fn default() -> (out: Self)
        ensures
            out.plugin is None,
            out.version is None,
    {
        PnpmConfig { plugin: None, version: None }
    }
}

impl Default for YarnConfig {
    fn default() -> (out: Self)
        ensures
            out.plugin is None,
            out.version is None,
            out.plugins@.len() == 0,
    {
        YarnConfig { plugin: None, plugins: Vec::new(), version: None }
    }
}

impl Default for NodeConfig {
    fn default() -> (out: Self)
        ensures
            out.add_engines_constraint,
            out.dedupe_on_lockfile_change,
            out.sync_project_workspace_dependencies,
            !out.infer_tasks_from_scripts,
            out.alias_package_names == NodeProjectAliasFormat::NameAndScope,
            out.dependency_version_format == NodeVersionFormat::Workspace,
            out.package_manager == NodePackageManager::Npm,
            out.bin_exec_args@.len() == 0,
            out.npm.plugin is None,
            out.npm.version is None,
            out.plugin is None,
            out.pnpm is None,
            out.yarn is None,
            out.version is None,
            out.sync_version_manager_config is None,
    {
        NodeConfig {
            add_engines_constraint: true,
            alias_package_names: NodeProjectAliasFormat::NameAndScope,
            bin_exec_args: Vec::new(),
            dedupe_on_lockfile_change: true,
            dependency_version_format: NodeVersionFormat::Workspace,
            infer_tasks_from_scripts: false,
            npm: NpmConfig { plugin: None, version: None },
            package_manager: NodePackageManager::Npm,
            plugin: None,
            pnpm: None,
            sync_project_workspace_dependencies: true,
            sync_version_manager_config: None,
            version: None,
            yarn: None,
        }
    }
}

/// The version and the plugin of an optional tool after it has inherited:
/// the tool is there if it was there or a version is pinned for it; its
/// version is its own or else the pinned one; its plugin is its own or else
/// the pinned one.
pub open spec fn inherited_tool(
    own: Option<(Option<Seq<char>>, Option<Seq<char>>)>,
    version: Option<Seq<char>>,
    plugin: Option<Seq<char>>,
) -> Option<(Option<Seq<char>>, Option<Seq<char>>)> {
    match own {
        Some((own_version, own_plugin)) => Some(
            (or_else(own_version, version), or_else(own_plugin, plugin)),
        ),
        None => if version is Some {
            Some((version, plugin))
        } else {
            None
        },
    }
}

impl PnpmConfig {
    /// The version and the plugin.
    pub open spec fn pair(self) -> (Option<Seq<char>>, Option<Seq<char>>) {
        (self.version.deep_view(), self.plugin.deep_view())
    }
}

impl YarnConfig {
    /// The version and the plugin.
    pub open spec fn pair(self) -> (Option<Seq<char>>, Option<Seq<char>>) {
        (self.version.deep_view(), self.plugin.deep_view())
    }
}

/// The version and the plugin of pnpm, where it is set.
pub open spec fn pnpm_pair(config: Option<PnpmConfig>) -> Option<
    (Option<Seq<char>>, Option<Seq<char>>),
> {
    match config {
        Some(c) => Some(c.pair()),
        None => None,
    }
}

/// The version and the plugin of yarn, where it is set.
pub open spec fn yarn_pair(config: Option<YarnConfig>) -> Option<
    (Option<Seq<char>>, Option<Seq<char>>),
> {
    match config {
        Some(c) => Some(c.pair()),
        None => None,
    }
}

impl NodeConfig {
    /// The settings that inheriting leaves alone are those of `other`.
    pub open spec fn same_rest(self, other: NodeConfig) -> bool {
        &&& self.add_engines_constraint == other.add_engines_constraint
        &&& self.alias_package_names == other.alias_package_names
        &&& self.bin_exec_args == other.bin_exec_args
        &&& self.dedupe_on_lockfile_change == other.dedupe_on_lockfile_change
        &&& self.dependency_version_format == other.dependency_version_format
        &&& self.infer_tasks_from_scripts == other.infer_tasks_from_scripts
        &&& self.package_manager == other.package_manager
        &&& self.sync_project_workspace_dependencies == other.sync_project_workspace_dependencies
        &&& self.sync_version_manager_config == other.sync_version_manager_config
        &&& self.version == other.version
    }

    /// npm takes the pinned version and plugin where it has none of its
    /// own.
    pub fn inherit_proto_npm(&mut self, proto_tools: &ProtoTools)
        ensures
            final(self).npm.version.deep_view() == or_else(
                old(self).npm.version.deep_view(),
                value_of(proto_tools.tools.deep_view(), "npm"@),
            ),
            final(self).npm.plugin.deep_view() == or_else(
                old(self).npm.plugin.deep_view(),
                value_of(proto_tools.plugins.deep_view(), "npm"@),
            ),
            final(self).pnpm == old(self).pnpm,
            final(self).yarn == old(self).yarn,
            final(self).plugin == old(self).plugin,
            final(self).same_rest(*old(self)),
    {
        inherit(&mut self.npm.version, find_value(&proto_tools.tools, "npm"));
        inherit(&mut self.npm.plugin, find_value(&proto_tools.plugins, "npm"));
    }

    /// pnpm is set if a version is pinned for it, and takes the pinned
    /// version and plugin where it has none of its own.
    pub fn inherit_proto_pnpm(&mut self, proto_tools: &ProtoTools)
        ensures
            pnpm_pair(final(self).pnpm) == inherited_tool(
                pnpm_pair(old(self).pnpm),
                value_of(proto_tools.tools.deep_view(), "pnpm"@),
                value_of(proto_tools.plugins.deep_view(), "pnpm"@),
            ),
            final(self).npm == old(self).npm,
            final(self).yarn == old(self).yarn,
            final(self).plugin == old(self).plugin,
            final(self).same_rest(*old(self)),
    {
        let version = find_value(&proto_tools.tools, "pnpm");
        let plugin = find_value(&proto_tools.plugins, "pnpm");
        let current = self.pnpm.take();
        let next = match current {
            Some(mut config) => {
                inherit(&mut config.version, version);
                inherit(&mut config.plugin, plugin);
                Some(config)
            },
            None => match version {
                Some(v) => Some(PnpmConfig { plugin, version: Some(v) }),
                None => None,
            },
        };
        self.pnpm = next;
    }

    /// yarn is set if a version is pinned for it, and takes the pinned
    /// version and plugin where it has none of its own.
    pub fn inherit_proto_yarn(&mut self, proto_tools: &ProtoTools)
        ensures
            yarn_pair(final(self).yarn) == inherited_tool(
                yarn_pair(old(self).yarn),
                value_of(proto_tools.tools.deep_view(), "yarn"@),
                value_of(proto_tools.plugins.deep_view(), "yarn"@),
            ),
            old(self).yarn matches Some(y) ==> final(self).yarn->0.plugins == y.plugins,
            old(self).yarn is None && final(self).yarn is Some ==> final(self).yarn->0.plugins@.len()
                == 0,
            final(self).npm == old(self).npm,
            final(self).pnpm == old(self).pnpm,
            final(self).plugin == old(self).plugin,
            final(self).same_rest(*old(self)),
    {
        let version = find_value(&proto_tools.tools, "yarn");
        let plugin = find_value(&proto_tools.plugins, "yarn");
        let current = self.yarn.take();
        let next = match current {
            Some(mut config) => {
                inherit(&mut config.version, version);
                inherit(&mut config.plugin, plugin);
                Some(config)
            },
            None => match version {
                Some(v) => Some(YarnConfig { plugin, plugins: Vec::new(), version: Some(v) }),
                None => None,
            },
        };
        self.yarn = next;
    }

    /// The package manager in use is set, with defaults if it was not, and
    /// takes the pinned version and plugin where it has none of its own;
    /// Node.js takes the pinned plugin where it has none.
    pub fn inherit_proto(&mut self, proto_tools: &ProtoTools)
        ensures
            final(self).same_rest(*old(self)),
            final(self).plugin.deep_view() == or_else(
                old(self).plugin.deep_view(),
                value_of(proto_tools.plugins.deep_view(), "node"@),
            ),
            old(self).package_manager == NodePackageManager::Npm ==> {
                &&& final(self).npm.version.deep_view() == or_else(
                    old(self).npm.version.deep_view(),
                    value_of(proto_tools.tools.deep_view(), "npm"@),
                )
                &&& final(self).npm.plugin.deep_view() == or_else(
                    old(self).npm.plugin.deep_view(),
                    value_of(proto_tools.plugins.deep_view(), "npm"@),
                )
                &&& final(self).pnpm == old(self).pnpm
                &&& final(self).yarn == old(self).yarn
            },
            old(self).package_manager == NodePackageManager::Pnpm ==> {
                &&& pnpm_pair(final(self).pnpm) == inherited_tool(
                    if old(self).pnpm is Some {
                        pnpm_pair(old(self).pnpm)
                    } else {
                        Some((None, None))
                    },
                    value_of(proto_tools.tools.deep_view(), "pnpm"@),
                    value_of(proto_tools.plugins.deep_view(), "pnpm"@),
                )
                &&& final(self).npm == old(self).npm
                &&& final(self).yarn == old(self).yarn
            },
            old(self).package_manager == NodePackageManager::Yarn ==> {
                &&& yarn_pair(final(self).yarn) == inherited_tool(
                    if old(self).yarn is Some {
                        yarn_pair(old(self).yarn)
                    } else {
                        Some((None, None))
                    },
                    value_of(proto_tools.tools.deep_view(), "yarn"@),
                    value_of(proto_tools.plugins.deep_view(), "yarn"@),
                )
                &&& final(self).npm == old(self).npm
                &&& final(self).pnpm == old(self).pnpm
            },
    {
        match self.package_manager {
            NodePackageManager::Npm => {
                self.inherit_proto_npm(proto_tools);
            },
            NodePackageManager::Pnpm => {
                if self.pnpm.is_none() {
                    self.pnpm = Some(PnpmConfig { plugin: None, version: None });
                }
                self.inherit_proto_pnpm(proto_tools);
            },
            NodePackageManager::Yarn => {
                if self.yarn.is_none() {
                    self.yarn = Some(YarnConfig { plugin: None, plugins: Vec::new(), version: None });
                }
                self.inherit_proto_yarn(proto_tools);
            },
        }
        inherit(&mut self.plugin, find_value(&proto_tools.plugins, "node"));
    }
}

} // verus!
