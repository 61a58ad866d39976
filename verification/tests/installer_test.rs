use seesea_installer::cli::{Args, Operation};
use seesea_installer::config::{
    CommandConfig, ComponentConfig, Config, DependencyConfig, InstallOptions, PlatformConfig,
    PluginConfig, ProjectConfig,
};
use seesea_installer::installer::{ComponentStatus, ErrorKind, Installer, Phase, StepResult};
use seesea_installer::journal::{
    Action, HookPoint, Outcome, RollbackJournal, Script, UpdateStatus,
};
use seesea_installer::platform::PlatformImpl;

fn options(dir: &str) -> InstallOptions {
    InstallOptions {
        default_dir: dir.to_string(),
        create_desktop_shortcut: false,
        create_start_menu_shortcut: false,
        add_to_path: false,
        create_uninstaller: false,
        silent: false,
        language: None,
        log_level: None,
        components: None,
        pre_install_script: None,
        post_install_script: None,
        pre_uninstall_script: None,
        post_uninstall_script: None,
        create_service: false,
        service_name: None,
        service_description: None,
        auto_check_updates: false,
        update_channel: None,
        preserve_configs: None,
        backup_enabled: true,
        backup_retention: None,
    }
}

fn config(version: &str) -> Config {
    Config {
        project: ProjectConfig {
            name: "demo".to_string(),
            version: version.to_string(),
            description: None,
            author: None,
            homepage: None,
            license: None,
        },
        install_options: options("/opt/demo"),
        platform: None,
        commands: Vec::new(),
        dependencies: None,
        components: None,
        plugins: None,
        installer_version: None,
        installer_name: None,
    }
}

fn component(name: &str, deps: &[&str]) -> ComponentConfig {
    ComponentConfig {
        name: name.to_string(),
        description: None,
        version: None,
        default: true,
        files: Some(vec![format!("{name}.bin")]),
        depends_on: Some(deps.iter().map(|d| d.to_string()).collect()),
        platforms: None,
    }
}

fn args() -> Args {
    Args {
        config: "install.toml".to_string(),
        install_dir: None,
        debug: false,
        command: "install".to_string(),
        check: false,
        backup_dir: None,
        force: false,
    }
}

fn installer(config: Config, args: Args) -> Installer {
    Installer::new(config, args, PlatformImpl::new("linux").unwrap(), "/tmp/work".to_string())
}

fn ok() -> StepResult {
    StepResult { created: Vec::new(), error: None }
}

fn made(paths: &[&str]) -> StepResult {
    StepResult { created: paths.iter().map(|p| p.to_string()).collect(), error: None }
}

fn failed(message: &str, paths: &[&str]) -> StepResult {
    StepResult {
        created: paths.iter().map(|p| p.to_string()).collect(),
        error: Some(message.to_string()),
    }
}

fn finish(outcome: Outcome) -> Action {
    Action::Finish { outcome }
}

#[test]
fn new_installer_is_idle() {
    let mut a = args();
    a.install_dir = Some("/srv/demo".to_string());
    let i = installer(config("1.0.0"), a);
    assert_eq!(i.phase, Phase::Idle);
    assert_eq!(i.install_dir, "/srv/demo");
    assert_eq!(i.outcome(), Outcome::Pending);
    let i = installer(config("1.0.0"), args());
    assert_eq!(i.install_dir, "/opt/demo");
    assert!(i.journal.installed_files.is_empty());
}

#[test]
fn install_dir_follows_the_platform_options() {
    let mut c = config("1.0.0");
    c.platform = Some(PlatformConfig {
        windows: Some(options("C:\\Demo")),
        linux: Some(options("/usr/local/demo")),
        macos: None,
    });
    let i = Installer::new(
        config_clone(&c),
        args(),
        PlatformImpl::new("linux").unwrap(),
        "/tmp/w".to_string(),
    );
    assert_eq!(i.install_dir, "/usr/local/demo");
    let i = Installer::new(
        config_clone(&c),
        args(),
        PlatformImpl::new("windows").unwrap(),
        "/tmp/w".to_string(),
    );
    assert_eq!(i.install_dir, "C:\\Demo");
    let i = Installer::new(c, args(), PlatformImpl::new("macos").unwrap(), "/tmp/w".to_string());
    assert_eq!(i.install_dir, "/opt/demo");
}

fn config_clone(c: &Config) -> Config {
    c.clone()
}

#[test]
fn minimal_install_runs_its_plan() {
    let mut i = installer(config("1.0.0"), args());
    assert_eq!(i.install(), Action::CheckSystemRequirements);
    assert_eq!(i.phase, Phase::Executing);
    assert_eq!(i.advance(ok()), Action::CreateInstallDir);
    assert_eq!(i.advance(ok()), Action::CopyPayload);
    assert_eq!(i.advance(made(&["/opt/demo/app"])), Action::CleanupTemp);
    assert_eq!(i.phase, Phase::CleaningUp);
    assert_eq!(i.journal.installed_files, vec!["/opt/demo/app".to_string()]);
    assert_eq!(i.advance(ok()), finish(Outcome::Completed));
    assert_eq!(i.phase, Phase::Completed);
    assert!(i.journal.installed_files.is_empty());
    assert!(i.failure.is_none());
    assert!(i.check());
    // Nothing moves once the run has ended.
    assert_eq!(i.advance(ok()), finish(Outcome::Completed));
    assert_eq!(i.install(), finish(Outcome::Completed));
}

#[test]
fn full_install_plan_is_in_pipeline_order() {
    let mut c = config("1.0.0");
    c.install_options.create_desktop_shortcut = true;
    c.install_options.create_start_menu_shortcut = true;
    c.install_options.add_to_path = true;
    c.install_options.create_service = true;
    c.install_options.create_uninstaller = true;
    c.install_options.pre_install_script = Some("pre.sh".to_string());
    c.install_options.post_install_script = Some("post.sh".to_string());
    c.plugins = Some(vec![PluginConfig {
        name: "p".to_string(),
        path: "p.so".to_string(),
        config: None,
    }]);
    c.dependencies = Some(vec![
        dependency("python", Some("apt install python3")),
        dependency("docs", None),
        dependency("pip", Some("apt install pip")),
    ]);
    c.components = Some(vec![component("ui", &["core"]), component("core", &[])]);
    c.commands = vec![command("first"), command("second")];
    let mut i = installer(c, args());
    assert!(i.prepare(Operation::Install));
    assert_eq!(i.phase, Phase::Preparing);
    assert_eq!(i.order, vec![1, 0]);
    assert_eq!(
        i.plan,
        vec![
            Action::RunHooks { point: HookPoint::PreInstall },
            Action::RunScript { script: Script::PreInstall },
            Action::CheckSystemRequirements,
            Action::CreateInstallDir,
            Action::InstallDependency { index: 0 },
            Action::InstallDependency { index: 2 },
            Action::InstallComponent { index: 1 },
            Action::InstallComponent { index: 0 },
            Action::CopyPayload,
            Action::CreateDesktopShortcut,
            Action::CreateStartMenuShortcut,
            Action::AddToPath,
            Action::CreateService,
            Action::CreateUninstaller,
            Action::RunCommand { index: 0 },
            Action::RunCommand { index: 1 },
            Action::RunScript { script: Script::PostInstall },
            Action::RunHooks { point: HookPoint::PostInstall },
        ]
    );
    assert_eq!(i.begin(), Action::RunHooks { point: HookPoint::PreInstall });
    assert_eq!(i.phase, Phase::Executing);
}

fn dependency(name: &str, install: Option<&str>) -> DependencyConfig {
    DependencyConfig {
        name: name.to_string(),
        version: "1".to_string(),
        kind: "runtime".to_string(),
        install_command: install.map(|s| s.to_string()),
        uninstall_command: None,
        check_command: None,
        platforms: None,
        components: None,
        optional: false,
        depends_on: None,
    }
}

fn command(name: &str) -> CommandConfig {
    CommandConfig {
        name: name.to_string(),
        description: None,
        program: "/bin/true".to_string(),
        args: Vec::new(),
        working_dir: None,
        background: false,
        env: None,
        user: None,
        group: None,
        timeout: None,
        retries: None,
        retry_delay: None,
        success_codes: None,
        ignore_errors: false,
    }
}

#[test]
fn components_are_tracked_through_their_statuses() {
    let mut c = config("1.0.0");
    c.components = Some(vec![component("B", &["A"]), component("A", &[])]);
    let mut i = installer(c, args());
    assert_eq!(i.install(), Action::CheckSystemRequirements);
    assert_eq!(i.advance(ok()), Action::CreateInstallDir);
    assert_eq!(i.component_status, vec![ComponentStatus::NotInstalled; 2]);
    assert_eq!(i.advance(ok()), Action::InstallComponent { index: 1 });
    assert_eq!(
        i.component_status,
        vec![ComponentStatus::NotInstalled, ComponentStatus::Installing]
    );
    assert_eq!(i.advance(made(&["/opt/demo/A.bin"])), Action::InstallComponent { index: 0 });
    assert_eq!(i.component_status, vec![ComponentStatus::Installing, ComponentStatus::Installed]);
    assert_eq!(i.journal.installed_components, vec!["A".to_string()]);
    assert_eq!(i.advance(made(&["/opt/demo/B.bin"])), Action::CopyPayload);
    assert_eq!(i.component_status, vec![ComponentStatus::Installed; 2]);
    assert_eq!(i.journal.installed_components, vec!["A".to_string(), "B".to_string()]);
    assert_eq!(
        i.journal.installed_files,
        vec!["/opt/demo/A.bin".to_string(), "/opt/demo/B.bin".to_string()]
    );
}

#[test]
fn failed_payload_copy_is_rolled_back() {
    let mut c = config("1.0.0");
    c.install_options.add_to_path = true;
    let mut i = installer(c, args());
    assert_eq!(i.install(), Action::CheckSystemRequirements);
    assert_eq!(i.advance(ok()), Action::CreateInstallDir);
    assert_eq!(i.advance(ok()), Action::CopyPayload);
    let step = i.advance(failed("source is missing", &["/opt/demo/one"]));
    assert_eq!(i.phase, Phase::RollingBack);
    assert_eq!(step, Action::DeleteFile { index: 0 });
    assert_eq!(i.journal.installed_files[0], "/opt/demo/one");
    assert_eq!(i.advance(ok()), Action::DeleteInstallDir);
    assert_eq!(i.advance(ok()), Action::CleanupTemp);
    assert!(i.journal.installed_files.is_empty());
    assert_eq!(i.advance(ok()), finish(Outcome::RolledBack { clean: true }));
    assert_eq!(i.phase, Phase::RolledBack);
    let failure = i.failure.as_ref().unwrap();
    assert_eq!(failure.kind, ErrorKind::Io);
    assert_eq!(failure.message, "source is missing");
    assert!(!i.journal.added_to_path);
    assert!(!i.journal.created_uninstaller);
}

#[test]
fn rollback_goes_on_after_a_failed_step_and_keeps_the_first_failure() {
    let mut c = config("1.0.0");
    c.install_options.add_to_path = true;
    c.install_options.create_uninstaller = true;
    c.install_options.create_desktop_shortcut = true;
    c.install_options.post_install_script = Some("post.sh".to_string());
    let mut i = installer(c, args());
    assert_eq!(i.install(), Action::CheckSystemRequirements);
    assert_eq!(i.advance(ok()), Action::CreateInstallDir);
    assert_eq!(i.advance(ok()), Action::CopyPayload);
    assert_eq!(i.advance(made(&["/opt/demo/a", "/opt/demo/b"])), Action::CreateDesktopShortcut);
    assert_eq!(i.advance(made(&["/home/u/Desktop/demo.desktop"])), Action::AddToPath);
    assert_eq!(i.advance(ok()), Action::CreateUninstaller);
    assert!(i.journal.added_to_path);
    assert_eq!(i.advance(ok()), Action::RunScript { script: Script::PostInstall });
    assert!(i.journal.created_uninstaller);
    let step = i.advance(failed("exit code 3", &[]));
    assert_eq!(step, Action::RemoveFromPath);
    let second = failed("config is read-only", &[]);
    assert_eq!(i.advance(second), Action::RemoveUninstaller);
    assert_eq!(i.advance(ok()), Action::RemoveShortcuts);
    assert_eq!(i.advance(ok()), Action::DeleteFile { index: 1 });
    assert_eq!(i.advance(ok()), Action::DeleteFile { index: 0 });
    assert_eq!(i.advance(ok()), Action::DeleteInstallDir);
    assert_eq!(i.advance(ok()), Action::CleanupTemp);
    assert_eq!(i.advance(ok()), finish(Outcome::RolledBack { clean: false }));
    let failure = i.failure.as_ref().unwrap();
    assert_eq!(failure.kind, ErrorKind::CommandExecution);
    assert_eq!(failure.message, "exit code 3");
    assert!(i.journal.installed_files.is_empty());
    assert!(i.journal.created_shortcuts.is_empty());
    assert!(!i.journal.added_to_path);
    assert!(!i.journal.created_uninstaller);
}

#[test]
fn early_failure_still_removes_the_install_directory() {
    let mut i = installer(config("1.0.0"), args());
    assert_eq!(i.install(), Action::CheckSystemRequirements);
    let step = i.advance(failed("too old", &[]));
    assert_eq!(step, Action::DeleteInstallDir);
    assert_eq!(i.advance(ok()), Action::CleanupTemp);
    assert_eq!(i.advance(ok()), finish(Outcome::RolledBack { clean: true }));
    assert_eq!(i.failure.as_ref().unwrap().kind, ErrorKind::SystemRequirement);
}

#[test]
fn failed_component_is_broken() {
    let mut c = config("1.0.0");
    c.components = Some(vec![component("A", &[])]);
    let mut i = installer(c, args());
    i.install();
    i.advance(ok());
    assert_eq!(i.advance(ok()), Action::InstallComponent { index: 0 });
    let step = i.advance(failed("A.bin is missing", &[]));
    assert_eq!(i.component_status, vec![ComponentStatus::Broken]);
    assert!(i.journal.installed_components.is_empty());
    assert_eq!(step, Action::DeleteInstallDir);
}

#[test]
fn cycle_ends_the_install_before_any_step() {
    let mut c = config("1.0.0");
    c.components = Some(vec![component("A", &["B"]), component("B", &["A"])]);
    let mut i = installer(c, args());
    assert_eq!(i.install(), finish(Outcome::Failed));
    assert_eq!(i.phase, Phase::Failed);
    let failure = i.failure.as_ref().unwrap();
    assert_eq!(failure.kind, ErrorKind::DependencyCycle);
    assert_eq!(failure.message, "component dependency graph contains a cycle");
    assert_eq!(i.unresolved, vec!["A".to_string(), "B".to_string()]);
    assert!(i.plan.is_empty());
}

#[test]
fn duplicate_component_ends_the_install() {
    let mut c = config("1.0.0");
    c.components = Some(vec![component("A", &[]), component("A", &[])]);
    let mut i = installer(c, args());
    assert_eq!(i.install(), finish(Outcome::Failed));
    let failure = i.failure.as_ref().unwrap();
    assert_eq!(failure.kind, ErrorKind::Config);
    assert_eq!(failure.message, "duplicate component name");
}

#[test]
fn forced_update_proceeds_with_a_downgrade() {
    let mut a = args();
    a.force = true;
    let mut i = installer(config("1.0.0"), a);
    assert_eq!(i.update_at(Some("2.0.0"), "20240102_030405"), Action::Backup);
    assert_eq!(i.phase, Phase::BackingUp);
    assert_eq!(i.operation, Operation::Update);
    assert_eq!(i.backup_name, Some("backup_20240102_030405".to_string()));
    assert_eq!(i.advance(ok()), Action::CheckSystemRequirements);
    assert_eq!(i.advance(ok()), Action::CopyPayload);
    assert_eq!(i.advance(ok()), Action::SaveVersion);
    assert_eq!(i.advance(ok()), Action::CleanupTemp);
    assert_eq!(i.advance(ok()), finish(Outcome::Completed));
}

#[test]
fn update_to_an_older_version_is_not_due() {
    let mut i = installer(config("1.0.0"), args());
    assert_eq!(i.update_at(Some("2.0.0"), "s"), finish(Outcome::UpToDate));
    assert_eq!(i.phase, Phase::Idle);
    assert_eq!(i.update_at(Some("1.0.0\n"), "s"), finish(Outcome::UpToDate));
    assert_eq!(i.phase, Phase::Idle);
    assert!(i.plan.is_empty());
}

#[test]
fn update_is_due_for_a_newer_version_or_no_version() {
    let mut i = installer(config("1.1.0"), args());
    assert_eq!(i.update_at(Some("1.0.0"), "s"), Action::Backup);
    let mut i = installer(config("1.1.0"), args());
    assert_eq!(i.update_at(None, "s"), Action::Backup);
    let mut i = installer(config("1.0.0"), args());
    assert_eq!(i.update_at(Some("1.0.0-rc1"), "s"), Action::Backup);
}

#[test]
fn update_with_explicit_backup_directory_names_no_backup() {
    let mut a = args();
    a.backup_dir = Some("/var/backups/demo".to_string());
    let mut i = installer(config("1.1.0"), a);
    assert_eq!(i.update_at(Some("1.0.0"), "s"), Action::Backup);
    assert_eq!(i.backup_name, None);
}

#[test]
fn update_from_the_clock_names_its_backup() {
    let mut i = installer(config("1.1.0"), args());
    assert_eq!(i.update(Some("1.0.0")), Action::Backup);
    let name = i.backup_name.clone().unwrap();
    assert!(name.starts_with("backup_"));
    assert_eq!(name.len(), "backup_".len() + 15);
    assert!(name["backup_".len()..].chars().all(|c| c.is_ascii_digit() || c == '_'));
}

#[test]
fn check_compares_and_changes_nothing() {
    let mut a = args();
    a.check = true;
    let mut i = installer(config("1.1.0"), a.clone());
    assert_eq!(i.update_at(Some("1.0.0"), "s"), finish(Outcome::Checked { status: UpdateStatus::UpdateAvailable }));
    assert_eq!(i.phase, Phase::Idle);
    assert_eq!(i.update_at(Some("1.1.0"), "s"), finish(Outcome::Checked { status: UpdateStatus::UpToDate }));
    assert_eq!(i.update_at(Some("2.0.0"), "s"), finish(Outcome::Checked { status: UpdateStatus::NewerInstalled }));
    assert_eq!(i.update_at(None, "s"), finish(Outcome::Checked { status: UpdateStatus::NotInstalled }));
    assert_eq!(i.phase, Phase::Idle);
    assert!(i.backup_name.is_none());
}

#[test]
fn unreadable_version_fails_the_update() {
    let mut i = installer(config("1.1.0"), args());
    assert_eq!(i.update_at(Some("1.1"), "s"), finish(Outcome::Failed));
    let failure = i.failure.as_ref().unwrap();
    assert_eq!(failure.kind, ErrorKind::VersionParse);
    assert_eq!(failure.message, "invalid version format");
    let mut i = installer(config("new"), args());
    assert_eq!(i.update_at(Some("1.0.0"), "s"), finish(Outcome::Failed));
    assert_eq!(i.failure.as_ref().unwrap().kind, ErrorKind::VersionParse);
}

#[test]
fn failed_update_is_restored_from_the_backup() {
    let mut i = installer(config("1.1.0"), args());
    assert_eq!(i.update_at(Some("1.0.0"), "s"), Action::Backup);
    assert_eq!(i.advance(ok()), Action::CheckSystemRequirements);
    assert_eq!(i.advance(ok()), Action::CopyPayload);
    let step = i.advance(failed("disk full", &["/opt/demo/x"]));
    assert_eq!(step, Action::Restore);
    assert_eq!(i.phase, Phase::Restoring);
    let restore = failed("backup is gone", &[]);
    assert_eq!(i.advance(restore), Action::CleanupTemp);
    assert_eq!(i.advance(ok()), finish(Outcome::Restored { restored: false }));
    assert_eq!(i.phase, Phase::Restored);
    let failure = i.failure.as_ref().unwrap();
    assert_eq!(failure.kind, ErrorKind::Io);
    assert_eq!(failure.message, "disk full");
}

#[test]
fn failed_backup_ends_the_update() {
    let mut i = installer(config("1.1.0"), args());
    assert_eq!(i.update_at(Some("1.0.0"), "s"), Action::Backup);
    let step = i.advance(failed("no space", &[]));
    assert_eq!(step, finish(Outcome::Failed));
    assert_eq!(i.phase, Phase::Failed);
    assert_eq!(i.failure.as_ref().unwrap().kind, ErrorKind::BackupRestore);
}

#[test]
fn uninstall_removes_the_uninstaller_before_the_directory() {
    let mut c = config("1.0.0");
    c.install_options.pre_uninstall_script = Some("stop.sh".to_string());
    let mut i = installer(c, args());
    assert_eq!(i.uninstall(), Action::RunScript { script: Script::PreUninstall });
    assert_eq!(i.advance(ok()), Action::RemoveShortcuts);
    assert_eq!(i.advance(ok()), Action::RemoveFromPath);
    assert_eq!(i.advance(ok()), Action::RemoveDependencies);
    assert_eq!(i.advance(ok()), Action::RemoveUninstaller);
    assert_eq!(i.advance(ok()), Action::DeleteInstallDir);
    assert_eq!(i.advance(ok()), finish(Outcome::Completed));
    assert_eq!(i.phase, Phase::Completed);
}

#[test]
fn failed_uninstall_takes_nothing_back() {
    let mut i = installer(config("1.0.0"), args());
    assert_eq!(i.uninstall(), Action::RemoveShortcuts);
    let step = i.advance(failed("busy", &[]));
    assert_eq!(step, finish(Outcome::Failed));
    assert_eq!(i.phase, Phase::Failed);
}

#[test]
fn repair_needs_the_install_directory() {
    let mut c = config("1.0.0");
    c.install_options.add_to_path = true;
    c.install_options.create_desktop_shortcut = true;
    let mut i = installer(c, args());
    assert_eq!(i.repair(), Action::VerifyInstallDir);
    let step = i.advance(failed("install directory does not exist", &[]));
    assert_eq!(step, finish(Outcome::Failed));
    assert_eq!(i.failure.as_ref().unwrap().kind, ErrorKind::Io);

    let mut c = config("1.0.0");
    c.install_options.add_to_path = true;
    c.install_options.create_desktop_shortcut = true;
    let mut i = installer(c, args());
    assert_eq!(i.repair(), Action::VerifyInstallDir);
    assert_eq!(i.advance(ok()), Action::CopyPayload);
    assert_eq!(i.advance(ok()), Action::CreateDesktopShortcut);
    assert_eq!(i.advance(ok()), Action::AddToPath);
    assert_eq!(i.advance(ok()), finish(Outcome::Completed));
}

#[test]
fn hooks_may_add_files_to_the_journal() {
    let mut c = config("1.0.0");
    c.plugins =
        Some(vec![PluginConfig { name: "p".to_string(), path: "p.so".to_string(), config: None }]);
    let mut i = installer(c, args());
    assert_eq!(i.install(), Action::RunHooks { point: HookPoint::PreInstall });
    assert_eq!(i.advance(made(&["/opt/demo/plugin.dat"])), Action::CheckSystemRequirements);
    assert_eq!(i.journal.installed_files, vec!["/opt/demo/plugin.dat".to_string()]);
}

#[test]
fn journal_rolls_back_in_reverse() {
    let mut j = RollbackJournal::new();
    assert_eq!(j.rollback_plan(), vec![Action::DeleteInstallDir]);
    j.record_files(&vec!["a".to_string(), "b".to_string()]);
    j.record_files(&vec!["c".to_string()]);
    j.record_shortcuts(&vec!["s".to_string()]);
    j.record_component(&"core".to_string());
    j.added_to_path = true;
    j.created_uninstaller = true;
    assert_eq!(
        j.rollback_plan(),
        vec![
            Action::RemoveFromPath,
            Action::RemoveUninstaller,
            Action::RemoveShortcuts,
            Action::DeleteFile { index: 2 },
            Action::DeleteFile { index: 1 },
            Action::DeleteFile { index: 0 },
            Action::DeleteInstallDir,
        ]
    );
    j.clear();
    assert!(j.installed_components.is_empty());
    assert_eq!(j.rollback_plan(), vec![Action::DeleteInstallDir]);
    j.clear();
    assert_eq!(j.rollback_plan(), vec![Action::DeleteInstallDir]);
}

#[test]
fn completed_run_discards_its_journal() {
    let mut c = config("1.0.0");
    c.install_options.add_to_path = true;
    let mut i = installer(c, args());
    assert_eq!(i.repair(), Action::VerifyInstallDir);
    assert_eq!(i.advance(ok()), Action::CopyPayload);
    assert_eq!(i.advance(made(&["/opt/demo/app"])), Action::AddToPath);
    assert_eq!(i.journal.installed_files.len(), 1);
    assert_eq!(i.advance(ok()), finish(Outcome::Completed));
    assert!(i.journal.installed_files.is_empty());
    assert!(!i.journal.added_to_path);
}

#[test]
fn well_formedness_is_tested() {
    let mut i = installer(config("1.0.0"), args());
    assert!(i.check());
    i.install();
    assert!(i.check());
    i.cursor = i.plan.len();
    assert!(!i.check());
    i.cursor = 0;
    i.phase = Phase::RolledBack;
    assert!(!i.check());
    i.phase = Phase::Executing;
    i.component_status.push(ComponentStatus::Installed);
    assert!(!i.check());
}

#[test]
fn failures_take_their_kind_from_the_step() {
    let message = || "m".to_string();
    let kind = |a: Action| Installer::failure(a, message()).kind;
    assert_eq!(kind(Action::CopyPayload), ErrorKind::Io);
    assert_eq!(kind(Action::InstallComponent { index: 0 }), ErrorKind::Io);
    assert_eq!(kind(Action::CreateInstallDir), ErrorKind::Io);
    assert_eq!(kind(Action::SaveVersion), ErrorKind::Io);
    assert_eq!(kind(Action::CheckSystemRequirements), ErrorKind::SystemRequirement);
    assert_eq!(kind(Action::RunScript { script: Script::PreInstall }), ErrorKind::CommandExecution);
    assert_eq!(kind(Action::InstallDependency { index: 1 }), ErrorKind::CommandExecution);
    assert_eq!(kind(Action::RunCommand { index: 2 }), ErrorKind::CommandExecution);
    assert_eq!(kind(Action::RunHooks { point: HookPoint::PreInstall }), ErrorKind::PluginLoad);
    assert_eq!(kind(Action::Backup), ErrorKind::BackupRestore);
    assert_eq!(kind(Action::Restore), ErrorKind::BackupRestore);
    assert_eq!(Installer::failure(Action::AddToPath, message()).message, "m");
}
