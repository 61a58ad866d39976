//! The configuration document as plain values, and its validation.

use crate::text::same_text;
use vstd::prelude::*;
use vstd::string::*;

verus! {

/// The type `toml::Value`: a value of a TOML document. The library holds
/// such values as the settings of plugins, and hands them on without
/// reading them; nothing is claimed of what is in them.
#[verifier::external_type_specification]
#[verifier::external_body]
pub struct ExTomlValue(toml::Value);

/// The product that is installed.
#[derive(Debug, Clone)]
pub struct ProjectConfig {
    pub name: String,
    pub version: String,
    pub description: Option<String>,
    pub author: Option<String>,
    pub homepage: Option<String>,
    pub license: Option<String>,
}

/// What an installation does besides copying files.
#[derive(Debug, Clone)]
pub struct InstallOptions {
    pub default_dir: String,
    pub create_desktop_shortcut: bool,
    pub create_start_menu_shortcut: bool,
    pub add_to_path: bool,
    pub create_uninstaller: bool,
    pub silent: bool,
    pub language: Option<String>,
    pub log_level: Option<String>,
    pub components: Option<Vec<String>>,
    pub pre_install_script: Option<String>,
    pub post_install_script: Option<String>,
    pub pre_uninstall_script: Option<String>,
    pub post_uninstall_script: Option<String>,
    pub create_service: bool,
    pub service_name: Option<String>,
    pub service_description: Option<String>,
    pub auto_check_updates: bool,
    pub update_channel: Option<String>,
    pub preserve_configs: Option<Vec<String>>,
    pub backup_enabled: bool,
    pub backup_retention: Option<u32>,
}

/// A command that the installer runs for the product.
#[derive(Debug, Clone)]
pub struct CommandConfig {
    pub name: String,
    pub description: Option<String>,
    pub program: String,
    pub args: Vec<String>,
    pub working_dir: Option<String>,
    pub background: bool,
    pub env: Option<Vec<(String, String)>>,
    pub user: Option<String>,
    pub group: Option<String>,
    /// Seconds after which the command is stopped and counts as failed.
    pub timeout: Option<u32>,
    /// How often a failed run is tried again.
    pub retries: Option<u32>,
    /// Seconds to wait before a run is tried again.
    pub retry_delay: Option<u32>,
    /// The exit codes that count as success; `0` alone when absent.
    pub success_codes: Option<Vec<i32>>,
    /// Whether a failure of the command is passed over.
    pub ignore_errors: bool,
}

/// Something that must be on the machine before the product is installed.
#[derive(Debug, Clone)]
pub struct DependencyConfig {
    pub name: String,
    pub version: String,
    pub kind: String,
    pub install_command: Option<String>,
    pub uninstall_command: Option<String>,
    pub check_command: Option<String>,
    pub platforms: Option<Vec<String>>,
    pub components: Option<Vec<String>>,
    pub optional: bool,
    pub depends_on: Option<Vec<String>>,
}

/// Install options that replace the global ones on one operating system.
#[derive(Debug, Clone)]
pub struct PlatformConfig {
    pub windows: Option<InstallOptions>,
    pub linux: Option<InstallOptions>,
    pub macos: Option<InstallOptions>,
}

/// A named, separately tracked part of the product.
#[derive(Debug, Clone)]
pub struct ComponentConfig {
    pub name: String,
    pub description: Option<String>,
    pub version: Option<String>,
    pub default: bool,
    pub files: Option<Vec<String>>,
    pub depends_on: Option<Vec<String>>,
    pub platforms: Option<Vec<String>>,
}

/// A plugin: a loadable module and what is handed to it when it starts.
#[derive(Debug, Clone)]
pub struct PluginConfig {
    pub name: String,
    pub path: String,
    pub config: Option<toml::Value>,
}

/// The whole configuration document.
#[derive(Debug, Clone)]
pub struct Config {
    pub project: ProjectConfig,
    pub install_options: InstallOptions,
    pub platform: Option<PlatformConfig>,
    pub commands: Vec<CommandConfig>,
    pub dependencies: Option<Vec<DependencyConfig>>,
    pub components: Option<Vec<ComponentConfig>>,
    pub plugins: Option<Vec<PluginConfig>>,
    pub installer_version: Option<String>,
    pub installer_name: Option<String>,
}

/// What is wrong with a configuration document. Where a variant has an
/// `index`, it is the position of the faulty entry in its list.
#[derive(Debug, Clone, Copy, PartialEq, Eq, Structural)]
pub enum ConfigError {
    EmptyProjectName,
    EmptyProjectVersion,
    EmptyDefaultDir,
    EmptyCommandName { index: usize },
    EmptyCommandProgram { index: usize },
    ZeroCommandTimeout { index: usize },
    TooManyRetries { index: usize },
    DuplicateComponent { index: usize },
    /// The component `component` names, as its dependency number
    /// `dependency`, a component that is not declared.
    UnknownDependency { component: usize, dependency: usize },
    DuplicatePlugin { index: usize },
    /// The module of the plugin is not on disk.
    MissingPlugin { index: usize },
    DuplicateDependency { index: usize },
}

/// The most often that a command may be tried again.
pub const MAX_RETRIES: u32 = 10;

/// The version that the installer gives itself in a default configuration.
pub open spec fn installer_version() -> Seq<char> {
    "0.1.0"@
}

/// The strings of an optional list; none when the list is absent.
pub open spec fn listed(v: Option<Vec<String>>) -> Seq<Seq<char>> {
    match v {
        Some(list) => list.deep_view(),
        None => Seq::empty(),
    }
}

/// The declared components; none when the section is absent.
pub open spec fn components_of(config: &Config) -> Seq<ComponentConfig> {
    match config.components {
        Some(list) => list@,
        None => Seq::empty(),
    }
}

/// The declared plugins; none when the section is absent.
pub open spec fn plugins_of(config: &Config) -> Seq<PluginConfig> {
    match config.plugins {
        Some(list) => list@,
        None => Seq::empty(),
    }
}

/// The declared dependencies; none when the section is absent.
pub open spec fn dependencies_of(config: &Config) -> Seq<DependencyConfig> {
    match config.dependencies {
        Some(list) => list@,
        None => Seq::empty(),
    }
}

/// The first error that `check` finds among the entries `0..upto`.
pub open spec fn first_error(upto: int, check: spec_fn(int) -> Option<ConfigError>) -> Option<
    ConfigError,
>
    decreases upto,
{
    if upto <= 0 {
        None
    } else {
        match first_error(upto - 1, check) {
            Some(e) => Some(e),
            None => check(upto - 1),
        }
    }
}

/// What is wrong with the project section and the default directory.
pub open spec fn project_error(config: &Config) -> Option<ConfigError> {
    if config.project.name@.len() == 0 {
        Some(ConfigError::EmptyProjectName)
    } else if config.project.version@.len() == 0 {
        Some(ConfigError::EmptyProjectVersion)
    } else if config.install_options.default_dir@.len() == 0 {
        Some(ConfigError::EmptyDefaultDir)
    } else {
        None
    }
}

/// What is wrong with the command at `index`.
pub open spec fn command_error(config: &Config, index: int) -> Option<ConfigError> {
    let command = config.commands@[index];
    if command.name@.len() == 0 {
        Some(ConfigError::EmptyCommandName { index: index as usize })
    } else if command.program@.len() == 0 {
        Some(ConfigError::EmptyCommandProgram { index: index as usize })
    } else if command.timeout == Some(0u32) {
        Some(ConfigError::ZeroCommandTimeout { index: index as usize })
    } else if command.retries is Some && command.retries->0 > MAX_RETRIES {
        Some(ConfigError::TooManyRetries { index: index as usize })
    } else {
        None
    }
}

/// Whether the dependency number `k` of the component at `index` names a
/// declared component.
pub open spec fn dependency_error(config: &Config, index: int, k: int) -> Option<ConfigError> {
    let components = components_of(config);
    let wanted = listed(components[index].depends_on)[k];
    if exists|j: int| 0 <= j < components.len() && (#[trigger] components[j]).name@ == wanted {
        None
    } else {
        Some(ConfigError::UnknownDependency { component: index as usize, dependency: k as usize })
    }
}

/// What is wrong with the component at `index`: its name was declared
/// before, or one of its dependencies is not declared at all.
pub open spec fn component_error(config: &Config, index: int) -> Option<ConfigError> {
    let components = components_of(config);
    if exists|j: int| 0 <= j < index && (#[trigger] components[j]).name@ == components[index].name@ {
        Some(ConfigError::DuplicateComponent { index: index as usize })
    } else {
        first_error(
            listed(components[index].depends_on).len() as int,
            |k: int| dependency_error(config, index, k),
        )
    }
}

/// What is wrong with the plugin at `index`: its name was declared before,
/// or its module is missing. `present[index]` says whether the module is on
/// disk; a plugin without an entry in `present` counts as missing.
pub open spec fn plugin_error(config: &Config, present: Seq<bool>, index: int) -> Option<
    ConfigError,
> {
    let plugins = plugins_of(config);
    if exists|j: int| 0 <= j < index && (#[trigger] plugins[j]).name@ == plugins[index].name@ {
        Some(ConfigError::DuplicatePlugin { index: index as usize })
    } else if !(index < present.len() && present[index]) {
        Some(ConfigError::MissingPlugin { index: index as usize })
    } else {
        None
    }
}

/// What is wrong with the dependency at `index`: its name was declared before.
pub open spec fn duplicate_dependency_error(config: &Config, index: int) -> Option<ConfigError> {
    let dependencies = dependencies_of(config);
    if exists|j: int|
        0 <= j < index && (#[trigger] dependencies[j]).name@ == dependencies[index].name@ {
        Some(ConfigError::DuplicateDependency { index: index as usize })
    } else {
        None
    }
}

/// The first fault of a configuration, in the order in which the sections
/// are checked: project, commands, components, plugins, dependencies.
pub open spec fn spec_validate(config: &Config, present: Seq<bool>) -> Option<ConfigError> {
    if project_error(config) is Some {
        project_error(config)
    } else if first_error(config.commands@.len() as int, |i: int| command_error(config, i))
        is Some {
        first_error(config.commands@.len() as int, |i: int| command_error(config, i))
    } else if first_error(
        components_of(config).len() as int,
        |i: int| component_error(config, i),
    ) is Some {
        first_error(components_of(config).len() as int, |i: int| component_error(config, i))
    } else if first_error(
        plugins_of(config).len() as int,
        |i: int| plugin_error(config, present, i),
    ) is Some {
        first_error(plugins_of(config).len() as int, |i: int| plugin_error(config, present, i))
    } else {
        first_error(
            dependencies_of(config).len() as int,
            |i: int| duplicate_dependency_error(config, i),
        )
    }
}

/// Whether `s` is empty.
fn is_blank(s: &String) -> (r: bool)
    ensures
        r == (s@.len() == 0),
{
    s.as_str().is_empty()
}

fn check_commands(config: &Config) -> (r: Option<ConfigError>)
    ensures
        r == first_error(config.commands@.len() as int, |i: int| command_error(config, i)),
{
    let ghost check = |i: int| command_error(config, i);
    let mut i: usize = 0;
    while i < config.commands.len()
        invariant
            i <= config.commands.len(),
            check == |i: int| command_error(config, i),
            first_error(i as int, check) is None,
        decreases config.commands.len() - i,
    {
        let command = &config.commands[i];
        let found = if is_blank(&command.name) {
            Some(ConfigError::EmptyCommandName { index: i })
        } else if is_blank(&command.program) {
            Some(ConfigError::EmptyCommandProgram { index: i })
        } else if command.timeout.is_some() && command.timeout.unwrap() == 0 {
            Some(ConfigError::ZeroCommandTimeout { index: i })
        } else if command.retries.is_some() && command.retries.unwrap() > MAX_RETRIES {
            Some(ConfigError::TooManyRetries { index: i })
        } else {
            None
        };
        assert(found == check(i as int));
        if found.is_some() {
            proof {
                lemma_first_error_found(config.commands@.len() as int, check, i as int);
            }
            return found;
        }
        i += 1;
    }
    None
}

/// An error at `at`, with none before it, is the first error of any longer range.
proof fn lemma_first_error_found(upto: int, check: spec_fn(int) -> Option<ConfigError>, at: int)
    requires
        0 <= at < upto,
        first_error(at, check) is None,
        check(at) is Some,
    ensures
        first_error(upto, check) == check(at),
    decreases upto,
{
    if upto > at + 1 {
        lemma_first_error_found(upto - 1, check, at);
    }
}

/// Whether a component named `name` is declared.
fn component_declared(components: &Vec<ComponentConfig>, name: &String) -> (r: bool)
    ensures
        r == exists|j: int| 0 <= j < components@.len() && (#[trigger] components@[j]).name@ == name@,
{
    let mut j: usize = 0;
    while j < components.len()
        invariant
            j <= components.len(),
            forall|m: int| 0 <= m < j ==> (#[trigger] components@[m]).name@ != name@,
        decreases components.len() - j,
    {
        if same_text(components[j].name.as_str(), name.as_str()) {
            return true;
        }
        j += 1;
    }
    false
}

fn check_component(config: &Config, components: &Vec<ComponentConfig>, i: usize) -> (r: Option<
    ConfigError,
>)
    requires
        config.components == Some(*components),
        i < components.len(),
    ensures
        r == component_error(config, i as int),
{
    let component = &components[i];
    let mut j: usize = 0;
    while j < i
        invariant
            j <= i < components.len(),
            config.components == Some(*components),
            *component == components@[i as int],
            forall|m: int| 0 <= m < j ==> (#[trigger] components@[m]).name@ != component.name@,
        decreases i - j,
    {
        if same_text(components[j].name.as_str(), component.name.as_str()) {
            assert(components_of(config)[j as int].name@ == components_of(config)[i as int].name@);
            return Some(ConfigError::DuplicateComponent { index: i });
        }
        j += 1;
    }
    let ghost check = |k: int| dependency_error(config, i as int, k);
    assert(!exists|m: int|
        0 <= m < i && (#[trigger] components_of(config)[m]).name@ == components_of(
            config,
        )[i as int].name@);
    match &component.depends_on {
        None => {
            assert(listed(component.depends_on).len() == 0);
            None
        },
        Some(wanted) => {
            let mut k: usize = 0;
            while k < wanted.len()
                invariant
                    k <= wanted.len(),
                    i < components.len(),
                    config.components == Some(*components),
                    components@[i as int].depends_on == Some(*wanted),
                    !exists|m: int|
                        0 <= m < i && (#[trigger] components_of(config)[m]).name@ == components_of(
                            config,
                        )[i as int].name@,
                    check == |k: int| dependency_error(config, i as int, k),
                    first_error(k as int, check) is None,
                decreases wanted.len() - k,
            {
                assert(listed(components@[i as int].depends_on)[k as int] == wanted@[k as int]@);
                if !component_declared(components, &wanted[k]) {
                    proof {
                        assert(check(k as int) is Some);
                        lemma_first_error_found(wanted.len() as int, check, k as int);
                    }
                    return Some(
                        ConfigError::UnknownDependency { component: i, dependency: k },
                    );
                }
                assert(check(k as int) is None);
                k += 1;
            }
            None
        },
    }
}

fn check_components(config: &Config) -> (r: Option<ConfigError>)
    ensures
        r == first_error(components_of(config).len() as int, |i: int| component_error(config, i)),
{
    let ghost check = |i: int| component_error(config, i);
    match &config.components {
        None => None,
        Some(components) => {
            let mut i: usize = 0;
            while i < components.len()
                invariant
                    i <= components.len(),
                    config.components == Some(*components),
                    check == |i: int| component_error(config, i),
                    first_error(i as int, check) is None,
                decreases components.len() - i,
            {
                let found = check_component(config, components, i);
                assert(found == check(i as int));
                if found.is_some() {
                    proof {
                        lemma_first_error_found(components.len() as int, check, i as int);
                    }
                    return found;
                }
                i += 1;
            }
            None
        },
    }
}

fn check_plugins(config: &Config, present: &Vec<bool>) -> (r: Option<ConfigError>)
    ensures
        r == first_error(
            plugins_of(config).len() as int,
            |i: int| plugin_error(config, present@, i),
        ),
{
    let ghost check = |i: int| plugin_error(config, present@, i);
    match &config.plugins {
        None => None,
        Some(plugins) => {
            let mut i: usize = 0;
            while i < plugins.len()
                invariant
                    i <= plugins.len(),
                    config.plugins == Some(*plugins),
                    check == |i: int| plugin_error(config, present@, i),
                    first_error(i as int, check) is None,
                decreases plugins.len() - i,
            {
                let mut repeated = false;
                let mut j: usize = 0;
                while j < i && !repeated
                    invariant
                        j <= i < plugins.len(),
                        repeated ==> exists|m: int|
                            0 <= m < i && (#[trigger] plugins@[m]).name@ == plugins@[i as int].name@,
                        !repeated ==> forall|m: int|
                            0 <= m < j ==> (#[trigger] plugins@[m]).name@ != plugins@[i as int].name@,
                    decreases i - j + if repeated { 0int } else { 1int },
                {
                    if same_text(plugins[j].name.as_str(), plugins[i].name.as_str()) {
                        repeated = true;
                    } else {
                        j += 1;
                    }
                }
                let found = if repeated {
                    Some(ConfigError::DuplicatePlugin { index: i })
                } else if !(i < present.len() && present[i]) {
                    Some(ConfigError::MissingPlugin { index: i })
                } else {
                    None
                };
                assert(found == check(i as int));
                if found.is_some() {
                    proof {
                        lemma_first_error_found(plugins.len() as int, check, i as int);
                    }
                    return found;
                }
                i += 1;
            }
            None
        },
    }
}

fn check_dependencies(config: &Config) -> (r: Option<ConfigError>)
    ensures
        r == first_error(
            dependencies_of(config).len() as int,
            |i: int| duplicate_dependency_error(config, i),
        ),
{
    let ghost check = |i: int| duplicate_dependency_error(config, i);
    match &config.dependencies {
        None => None,
        Some(dependencies) => {
            let mut i: usize = 0;
            while i < dependencies.len()
                invariant
                    i <= dependencies.len(),
                    config.dependencies == Some(*dependencies),
                    check == |i: int| duplicate_dependency_error(config, i),
                    first_error(i as int, check) is None,
                decreases dependencies.len() - i,
            {
                let mut j: usize = 0;
                while j < i
                    invariant
                        j <= i < dependencies.len(),
                        config.dependencies == Some(*dependencies),
                        check == |i: int| duplicate_dependency_error(config, i),
                        first_error(i as int, check) is None,
                        forall|m: int|
                            0 <= m < j ==> (#[trigger] dependencies@[m]).name@
                                != dependencies@[i as int].name@,
                    decreases i - j,
                {
                    if same_text(dependencies[j].name.as_str(), dependencies[i].name.as_str()) {
                        proof {
                            assert(check(i as int) is Some);
                            lemma_first_error_found(dependencies.len() as int, check, i as int);
                        }
                        return Some(ConfigError::DuplicateDependency { index: i });
                    }
                    j += 1;
                }
                assert(check(i as int) is None);
                i += 1;
            }
            None
        },
    }
}

/// Checks a configuration document. `plugin_present[i]` says whether the
/// module of plugin `i` is on disk. The answer is `Ok` for a document
/// without fault, and otherwise the first fault in checking order.
pub fn validate_config(config: &Config, plugin_present: &Vec<bool>) -> (r: Result<(), ConfigError>)
    ensures
        match r {
            Ok(_) => spec_validate(config, plugin_present@) is None,
            Err(e) => spec_validate(config, plugin_present@) == Some(e),
        },
{
    if is_blank(&config.project.name) {
        return Err(ConfigError::EmptyProjectName);
    }
    if is_blank(&config.project.version) {
        return Err(ConfigError::EmptyProjectVersion);
    }
    if is_blank(&config.install_options.default_dir) {
        return Err(ConfigError::EmptyDefaultDir);
    }
    match check_commands(config) {
        Some(e) => {
            return Err(e);
        },
        None => {},
    }
    match check_components(config) {
        Some(e) => {
            return Err(e);
        },
        None => {},
    }
    match check_plugins(config, plugin_present) {
        Some(e) => {
            return Err(e);
        },
        None => {},
    }
    match check_dependencies(config) {
        Some(e) => Err(e),
        None => Ok(()),
    }
}

/// Whether `c` is the default configuration: the product `seesea` in
/// version `1.0.0`, installed below `C:\Program Files`, with shortcuts, the
/// search path, an uninstaller and backups, and nothing else declared.
pub open spec fn is_default_config(c: &Config) -> bool {
    &&& c.project.name@ == "seesea"@
    &&& c.project.version@ == "1.0.0"@
    &&& c.project.description matches Some(text) && text@ == "SeeSea Project"@
    &&& c.project.author is None
    &&& c.project.homepage is None
    &&& c.project.license matches Some(text) && text@ == "MIT"@
    &&& c.install_options.default_dir@ == "C:\\Program Files\\SeeSea"@
    &&& c.install_options.create_desktop_shortcut
    &&& c.install_options.create_start_menu_shortcut
    &&& c.install_options.add_to_path
    &&& c.install_options.create_uninstaller
    &&& !c.install_options.silent
    &&& c.install_options.language matches Some(text) && text@ == "en"@
    &&& c.install_options.log_level matches Some(text) && text@ == "info"@
    &&& c.install_options.components is None
    &&& c.install_options.pre_install_script is None
    &&& c.install_options.post_install_script is None
    &&& c.install_options.pre_uninstall_script is None
    &&& c.install_options.post_uninstall_script is None
    &&& !c.install_options.create_service
    &&& c.install_options.service_name is None
    &&& c.install_options.service_description is None
    &&& c.install_options.auto_check_updates
    &&& c.install_options.update_channel matches Some(text) && text@ == "stable"@
    &&& c.install_options.preserve_configs is None
    &&& c.install_options.backup_enabled
    &&& c.install_options.backup_retention == Some(5u32)
    &&& c.platform is None
    &&& c.commands@.len() == 0
    &&& c.dependencies is None
    &&& c.components is None
    &&& c.plugins is None
    &&& c.installer_version matches Some(text) && text@ == installer_version()
    &&& c.installer_name matches Some(text) && text@ == "seesea-installer"@
}

/// The default configuration.
pub fn generate_default_config() -> (c: Config)
    ensures
        is_default_config(&c),
        spec_validate(&c, Seq::empty()) is None,
{
    let c = Config {
        project: ProjectConfig {
            name: String::from_str("seesea"),
            version: String::from_str("1.0.0"),
            description: Some(String::from_str("SeeSea Project")),
            author: None,
            homepage: None,
            license: Some(String::from_str("MIT")),
        },
        install_options: InstallOptions {
            default_dir: String::from_str("C:\\Program Files\\SeeSea"),
            create_desktop_shortcut: true,
            create_start_menu_shortcut: true,
            add_to_path: true,
            create_uninstaller: true,
            silent: false,
            language: Some(String::from_str("en")),
            log_level: Some(String::from_str("info")),
            components: None,
            pre_install_script: None,
            post_install_script: None,
            pre_uninstall_script: None,
            post_uninstall_script: None,
            create_service: false,
            service_name: None,
            service_description: None,
            auto_check_updates: true,
            update_channel: Some(String::from_str("stable")),
            preserve_configs: None,
            backup_enabled: true,
            backup_retention: Some(5),
        },
        platform: None,
        commands: Vec::new(),
        dependencies: None,
        components: None,
        plugins: None,
        installer_version: Some(String::from_str("0.1.0")),
        installer_name: Some(String::from_str("seesea-installer")),
    };
    proof {
        reveal_strlit("seesea");
        reveal_strlit("1.0.0");
        reveal_strlit("C:\\Program Files\\SeeSea");
    }
    c
}

/// The places in which a configuration document named `config_path` is
/// looked for, in order: as named, one directory up, and two directories up.
pub open spec fn spec_search_paths(config_path: Seq<char>) -> Seq<Seq<char>> {
    seq![config_path, "../"@ + config_path, "../../"@ + config_path]
}

/// The places in which a configuration document is looked for, in order.
pub fn config_search_paths(config_path: &str) -> (r: Vec<String>)
    ensures
        r.deep_view() == spec_search_paths(config_path@),
{
    let mut paths: Vec<String> = Vec::new();
    paths.push(config_path.to_owned());
    let mut up = String::from_str("../");
    up.append(config_path);
    paths.push(up);
    let mut further = String::from_str("../../");
    further.append(config_path);
    paths.push(further);
    assert(paths.deep_view() =~= spec_search_paths(config_path@));
    paths
}

} // verus!
