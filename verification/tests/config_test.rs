use seesea_installer::cli::{parse_operation, Operation};
use seesea_installer::command::{judge, shell_invocation, success_code, Exit, Verdict};
use seesea_installer::config;
use seesea_installer::config::{
    config_search_paths, validate_config, CommandConfig, ComponentConfig, ConfigError,
    DependencyConfig, PluginConfig,
};

#[test]
fn test_generate_default_config() {
    let default_config = config::generate_default_config();

    assert_eq!(default_config.project.name, "seesea");
    assert_eq!(default_config.project.version, "1.0.0");
    assert_eq!(default_config.project.description.unwrap(), "SeeSea Project");
    assert!(default_config.project.author.is_none());

    assert_eq!(default_config.install_options.default_dir, "C:\\Program Files\\SeeSea");
    assert!(default_config.install_options.create_desktop_shortcut);
    assert!(default_config.install_options.create_start_menu_shortcut);
    assert!(default_config.install_options.add_to_path);
    assert!(default_config.install_options.create_uninstaller);

    assert!(default_config.commands.is_empty());
    assert!(default_config.dependencies.is_none());
}

#[test]
fn default_config_is_valid() {
    let c = config::generate_default_config();
    assert_eq!(validate_config(&c, &Vec::new()), Ok(()));
    assert_eq!(c.install_options.backup_retention, Some(5));
    assert_eq!(c.install_options.update_channel.as_deref(), Some("stable"));
    assert_eq!(c.installer_name.as_deref(), Some("seesea-installer"));
    assert_eq!(c.installer_version.as_deref(), Some("0.1.0"));
    assert_eq!(c.project.license.as_deref(), Some("MIT"));
}

fn command(name: &str, program: &str) -> CommandConfig {
    CommandConfig {
        name: name.to_string(),
        description: None,
        program: program.to_string(),
        args: Vec::new(),
        working_dir: None,
        background: false,
        env: None,
        user: None,
        group: None,
        timeout: None,
        retries: None,
        retry_delay: None,
        success_codes: None,
        ignore_errors: false,
    }
}

fn component(name: &str, deps: Option<&[&str]>) -> ComponentConfig {
    ComponentConfig {
        name: name.to_string(),
        description: None,
        version: None,
        default: false,
        files: None,
        depends_on: deps.map(|d| d.iter().map(|s| s.to_string()).collect()),
        platforms: None,
    }
}

fn plugin(name: &str) -> PluginConfig {
    PluginConfig { name: name.to_string(), path: format!("{name}.so"), config: None }
}

fn dependency(name: &str) -> DependencyConfig {
    DependencyConfig {
        name: name.to_string(),
        version: "1".to_string(),
        kind: "runtime".to_string(),
        install_command: None,
        uninstall_command: None,
        check_command: None,
        platforms: None,
        components: None,
        optional: false,
        depends_on: None,
    }
}

#[test]
fn project_section_is_checked_first() {
    let mut c = config::generate_default_config();
    c.project.name = String::new();
    c.project.version = String::new();
    assert_eq!(validate_config(&c, &Vec::new()), Err(ConfigError::EmptyProjectName));
    c.project.name = "x".to_string();
    assert_eq!(validate_config(&c, &Vec::new()), Err(ConfigError::EmptyProjectVersion));
    c.project.version = "1".to_string();
    c.install_options.default_dir = String::new();
    c.commands.push(command("", ""));
    assert_eq!(validate_config(&c, &Vec::new()), Err(ConfigError::EmptyDefaultDir));
}

#[test]
fn commands_are_checked_in_order() {
    let mut c = config::generate_default_config();
    c.commands = vec![command("ok", "/bin/true"), command("", "/bin/true"), command("x", "")];
    assert_eq!(validate_config(&c, &Vec::new()), Err(ConfigError::EmptyCommandName { index: 1 }));
    c.commands[1].name = "named".to_string();
    assert_eq!(
        validate_config(&c, &Vec::new()),
        Err(ConfigError::EmptyCommandProgram { index: 2 })
    );
    c.commands[2].program = "p".to_string();
    c.commands[0].timeout = Some(0);
    c.commands[0].retries = Some(11);
    assert_eq!(validate_config(&c, &Vec::new()), Err(ConfigError::ZeroCommandTimeout { index: 0 }));
    c.commands[0].timeout = Some(1);
    assert_eq!(validate_config(&c, &Vec::new()), Err(ConfigError::TooManyRetries { index: 0 }));
    c.commands[0].retries = Some(10);
    assert_eq!(validate_config(&c, &Vec::new()), Ok(()));
}

#[test]
fn components_must_be_unique_and_known() {
    let mut c = config::generate_default_config();
    c.components = Some(vec![
        component("a", Some(&["b"])),
        component("b", None),
        component("a", Some(&["zz"])),
    ]);
    assert_eq!(validate_config(&c, &Vec::new()), Err(ConfigError::DuplicateComponent { index: 2 }));
    c.components = Some(vec![component("a", Some(&["b", "zz", "yy"])), component("b", Some(&["a"]))]);
    assert_eq!(
        validate_config(&c, &Vec::new()),
        Err(ConfigError::UnknownDependency { component: 0, dependency: 1 })
    );
    c.components = Some(vec![component("a", Some(&["b"])), component("b", Some(&["a"]))]);
    assert_eq!(validate_config(&c, &Vec::new()), Ok(()));
}

#[test]
fn plugins_must_be_unique_and_present() {
    let mut c = config::generate_default_config();
    c.plugins = Some(vec![plugin("p"), plugin("q"), plugin("p")]);
    assert_eq!(
        validate_config(&c, &vec![true, true, true]),
        Err(ConfigError::DuplicatePlugin { index: 2 })
    );
    assert_eq!(
        validate_config(&c, &vec![true, false, true]),
        Err(ConfigError::MissingPlugin { index: 1 })
    );
    assert_eq!(validate_config(&c, &vec![true]), Err(ConfigError::MissingPlugin { index: 1 }));
    c.plugins = Some(vec![plugin("p"), plugin("q")]);
    assert_eq!(validate_config(&c, &vec![true, true]), Ok(()));
    c.dependencies = Some(vec![dependency("d"), dependency("e"), dependency("d")]);
    assert_eq!(
        validate_config(&c, &vec![true, true]),
        Err(ConfigError::DuplicateDependency { index: 2 })
    );
    assert_eq!(validate_config(&c, &vec![false, true]), Err(ConfigError::MissingPlugin { index: 0 }));
}

#[test]
fn config_is_looked_for_upwards() {
    assert_eq!(
        config_search_paths("install.toml"),
        vec!["install.toml".to_string(), "../install.toml".to_string(), "../../install.toml".to_string()]
    );
}

#[test]
fn command_names_are_read() {
    assert_eq!(parse_operation(&"install".to_string()), Some(Operation::Install));
    assert_eq!(parse_operation(&"uninstall".to_string()), Some(Operation::Uninstall));
    assert_eq!(parse_operation(&"repair".to_string()), Some(Operation::Repair));
    assert_eq!(parse_operation(&"update".to_string()), Some(Operation::Update));
    assert_eq!(parse_operation(&"upgrade".to_string()), None);
    assert_eq!(parse_operation(&"".to_string()), None);
}

#[test]
fn shell_depends_on_the_system() {
    assert_eq!(shell_invocation(true), ("cmd.exe", "/C"));
    assert_eq!(shell_invocation(false), ("sh", "-c"));
}

#[test]
fn exit_codes_are_judged() {
    let mut c = command("c", "p");
    assert!(success_code(&c, 0));
    assert!(!success_code(&c, 1));
    assert_eq!(judge(&c, Exit::Code(0), 1), Verdict::Succeeded);
    assert_eq!(judge(&c, Exit::Code(2), 1), Verdict::Failed);
    assert_eq!(judge(&c, Exit::TimedOut, 1), Verdict::Failed);
    assert_eq!(judge(&c, Exit::NotStarted, 1), Verdict::Failed);
    c.success_codes = Some(vec![3, 4]);
    assert!(success_code(&c, 4));
    assert_eq!(judge(&c, Exit::Code(4), 1), Verdict::Succeeded);
    assert_eq!(judge(&c, Exit::Code(0), 1), Verdict::Failed);
}

#[test]
fn failures_are_retried_up_to_the_limit() {
    let mut c = command("c", "p");
    c.retries = Some(2);
    c.retry_delay = Some(7);
    assert_eq!(judge(&c, Exit::Code(1), 1), Verdict::Retry { delay: 7 });
    assert_eq!(judge(&c, Exit::TimedOut, 2), Verdict::Retry { delay: 7 });
    assert_eq!(judge(&c, Exit::Code(1), 3), Verdict::Failed);
    assert_eq!(judge(&c, Exit::Code(0), 3), Verdict::Succeeded);
    c.retry_delay = None;
    assert_eq!(judge(&c, Exit::NotStarted, 1), Verdict::Retry { delay: 0 });
}

#[test]
fn ignored_errors_pass_bad_exit_codes_only() {
    let mut c = command("c", "p");
    c.ignore_errors = true;
    c.retries = Some(1);
    assert_eq!(judge(&c, Exit::Code(9), 1), Verdict::Ignored);
    assert_eq!(judge(&c, Exit::TimedOut, 1), Verdict::Retry { delay: 0 });
    assert_eq!(judge(&c, Exit::TimedOut, 2), Verdict::Failed);
    assert_eq!(judge(&c, Exit::Code(0), 1), Verdict::Succeeded);
}
