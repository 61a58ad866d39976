//! The installation orchestrator: a state machine that says which step
//! comes next, records what the steps changed, and takes a failed install
//! back.
//!
//! The orchestrator performs no step itself. Its caller performs the
//! [`Action`] that it is handed, reports the outcome as a [`StepResult`],
//! and is handed the next action, until the action is [`Action::Finish`].
//!
//! A source file of a component that is missing is a failure of the step
//! that copies it: the install fails and is rolled back.

use crate::cli::{Args, Operation};
use crate::config::{components_of, dependencies_of, listed, plugins_of, Config, InstallOptions};
use crate::journal::{
    empty_journal, lemma_rollback_ends_with_directory, rollback_actions, step_if, Action,
    HookPoint, JournalModel, Outcome, RollbackJournal, Script, UpdateStatus,
};
use crate::platform::{spec_install_options, PlatformImpl};
use crate::resolver::{
    distinct_names, has_node, is_resolution, lemma_dependencies_first,
    lemma_resolution_is_injective, node_index, unresolved, DependencyGraph, NodeModel,
};
use crate::text::clone_strings;
use crate::version::{
    check_update, get_current_version, spec_check_update, spec_compare, spec_current_version,
    spec_parse, Version, VersionModel,
};
use vstd::prelude::*;
use vstd::string::*;

verus! {

/// Where a component stands in its life.
#[derive(Debug, Clone, Copy, PartialEq, Eq, Structural)]
pub enum ComponentStatus {
    Installed,
    NotInstalled,
    Installing,
    Uninstalling,
    Broken,
}

/// The kinds of failure that a run can meet.
#[derive(Debug, Clone, Copy, PartialEq, Eq, Structural)]
pub enum ErrorKind {
    Config,
    SystemRequirement,
    DependencyCycle,
    Io,
    CommandExecution,
    PluginLoad,
    VersionParse,
    BackupRestore,
}

/// A failure: its kind, and its cause in words.
#[derive(Debug)]
pub struct InstallError {
    pub kind: ErrorKind,
    pub message: String,
}

/// The mathematical value of an [`InstallError`].
pub struct ErrorModel {
    pub kind: ErrorKind,
    pub message: Seq<char>,
}

impl View for InstallError {
    type V = ErrorModel;

    open spec fn view(&self) -> ErrorModel {
        ErrorModel { kind: self.kind, message: self.message@ }
    }
}

/// What the caller reports after it has performed an action.
#[derive(Debug)]
pub struct StepResult {
    /// Paths of what the step created, also when it failed half way: the
    /// files that it copied, or the shortcuts that it made.
    pub created: Vec<String>,
    /// Why the step failed, in words; `None` when it succeeded.
    pub error: Option<String>,
}

/// The mathematical value of a [`StepResult`].
pub struct ResultModel {
    pub created: Seq<Seq<char>>,
    pub error: Option<Seq<char>>,
}

impl View for StepResult {
    type V = ResultModel;

    open spec fn view(&self) -> ResultModel {
        ResultModel {
            created: self.created.deep_view(),
            error: match self.error {
                Some(e) => Some(e@),
                None => None,
            },
        }
    }
}

/// The kind of the failure of a step: a command that fails is a failed
/// command, the check of the machine an unmet requirement, a hook a failure
/// of a plugin, the backup and the restore a failure of the backup, and
/// every other step a failure of input or output.
pub open spec fn failure_kind(a: Action) -> ErrorKind {
    match a {
        Action::RunScript { .. } | Action::InstallDependency { .. } | Action::RunCommand { .. } => {
            ErrorKind::CommandExecution
        },
        Action::CheckSystemRequirements => ErrorKind::SystemRequirement,
        Action::RunHooks { .. } => ErrorKind::PluginLoad,
        Action::Backup | Action::Restore => ErrorKind::BackupRestore,
        _ => ErrorKind::Io,
    }
}

/// The failure of the step `a` with the cause `message`.
pub open spec fn failure_of(a: Action, message: Seq<char>) -> ErrorModel {
    ErrorModel { kind: failure_kind(a), message }
}

/// The states of the orchestrator.
#[derive(Debug, Clone, Copy, PartialEq, Eq, Structural)]
pub enum Phase {
    /// Nothing was asked for yet.
    Idle,
    /// The plan of the run is built.
    Preparing,
    /// An update waits for the backup of the install directory.
    BackingUp,
    /// The steps of the plan are performed.
    Executing,
    /// A failed install is taken back, step by step.
    RollingBack,
    /// A failed update waits for the backup to be put back.
    Restoring,
    /// The temporary files are deleted.
    CleaningUp,
    /// The run succeeded.
    Completed,
    /// An install failed and was taken back.
    RolledBack,
    /// An update failed and the backup was put back.
    Restored,
    /// The run failed where nothing is taken back.
    Failed,
}

/// What a plan depends on: the switches of the configuration and the order
/// of the components.
pub struct PlanInputs {
    /// Whether plugins are declared.
    pub plugins: bool,
    pub pre_install_script: bool,
    pub post_install_script: bool,
    pub pre_uninstall_script: bool,
    pub post_uninstall_script: bool,
    /// For each declared dependency, whether it has an install command.
    pub dependencies: Seq<bool>,
    /// The positions of the components, in installation order.
    pub order: Seq<usize>,
    /// The number of configured commands.
    pub commands: nat,
    pub desktop_shortcut: bool,
    pub start_menu_shortcut: bool,
    pub add_to_path: bool,
    pub service: bool,
    pub uninstaller: bool,
}

/// The install commands of the first `upto` dependencies, in declared
/// order; a dependency without install command has no step.
pub open spec fn dependency_steps(has_command: Seq<bool>, upto: int) -> Seq<Action>
    decreases upto,
{
    if upto <= 0 {
        Seq::empty()
    } else {
        dependency_steps(has_command, upto - 1) + step_if(
            has_command[upto - 1],
            Action::InstallDependency { index: (upto - 1) as usize },
        )
    }
}

/// One step for each component, in installation order.
pub open spec fn component_steps(order: Seq<usize>) -> Seq<Action> {
    Seq::new(order.len(), |p: int| Action::InstallComponent { index: order[p] })
}

/// One step for each configured command, in declared order.
pub open spec fn command_steps(count: nat) -> Seq<Action> {
    Seq::new(count, |i: int| Action::RunCommand { index: i as usize })
}

/// The steps of an install or an update that come before the components:
/// the hooks and the script, the check of the machine, the install
/// directory unless an update is made, and the dependencies.
pub open spec fn steps_before_components(i: PlanInputs, update: bool) -> Seq<Action> {
    step_if(i.plugins, Action::RunHooks { point: HookPoint::PreInstall }) + step_if(
        i.pre_install_script,
        Action::RunScript { script: Script::PreInstall },
    ) + seq![Action::CheckSystemRequirements] + step_if(!update, Action::CreateInstallDir)
        + dependency_steps(i.dependencies, i.dependencies.len() as int)
}

/// The steps of an install or an update that come after the components:
/// the payload, what the install options ask for, the commands, the script
/// and the hooks, and at the end of an update the new version.
pub open spec fn steps_after_components(i: PlanInputs, update: bool) -> Seq<Action> {
    seq![Action::CopyPayload] + step_if(i.desktop_shortcut, Action::CreateDesktopShortcut)
        + step_if(i.start_menu_shortcut, Action::CreateStartMenuShortcut) + step_if(
        i.add_to_path,
        Action::AddToPath,
    ) + step_if(i.service, Action::CreateService) + step_if(
        i.uninstaller,
        Action::CreateUninstaller,
    ) + command_steps(i.commands) + step_if(
        i.post_install_script,
        Action::RunScript { script: Script::PostInstall },
    ) + step_if(i.plugins, Action::RunHooks { point: HookPoint::PostInstall }) + step_if(
        update,
        Action::SaveVersion,
    )
}

/// The steps of an install, or of an update when `update` is set.
pub open spec fn pipeline(i: PlanInputs, update: bool) -> Seq<Action> {
    steps_before_components(i, update) + component_steps(i.order) + steps_after_components(
        i,
        update,
    )
}

/// The steps of an uninstall. The uninstaller goes before the install
/// directory, in which it may stand.
pub open spec fn uninstall_steps(i: PlanInputs) -> Seq<Action> {
    step_if(i.plugins, Action::RunHooks { point: HookPoint::PreUninstall }) + step_if(
        i.pre_uninstall_script,
        Action::RunScript { script: Script::PreUninstall },
    ) + seq![
        Action::RemoveShortcuts,
        Action::RemoveFromPath,
        Action::RemoveDependencies,
        Action::RemoveUninstaller,
        Action::DeleteInstallDir,
    ] + step_if(i.post_uninstall_script, Action::RunScript { script: Script::PostUninstall }) + step_if(
        i.plugins,
        Action::RunHooks { point: HookPoint::PostUninstall },
    )
}

/// The steps of a repair.
pub open spec fn repair_steps(i: PlanInputs) -> Seq<Action> {
    step_if(i.plugins, Action::RunHooks { point: HookPoint::PreRepair }) + seq![
        Action::VerifyInstallDir,
        Action::CopyPayload,
    ] + step_if(i.desktop_shortcut, Action::CreateDesktopShortcut) + step_if(
        i.start_menu_shortcut,
        Action::CreateStartMenuShortcut,
    ) + step_if(i.add_to_path, Action::AddToPath) + step_if(
        i.plugins,
        Action::RunHooks { point: HookPoint::PostRepair },
    )
}

/// The dependency graph of the declared components.
pub open spec fn component_graph(config: &Config) -> Seq<NodeModel> {
    Seq::new(
        components_of(config).len(),
        |i: int|
            NodeModel {
                name: components_of(config)[i].name@,
                depends_on: listed(components_of(config)[i].depends_on),
            },
    )
}

/// The names of the components at the positions `order`.
pub open spec fn ordered_names(g: Seq<NodeModel>, order: Seq<usize>) -> Seq<Seq<char>> {
    Seq::new(order.len(), |p: int| g[order[p] as int].name)
}

/// The inputs of the plans of a configuration on a platform.
pub open spec fn plan_inputs(config: &Config, options: InstallOptions, order: Seq<usize>) -> PlanInputs {
    PlanInputs {
        plugins: plugins_of(config).len() > 0,
        pre_install_script: options.pre_install_script is Some,
        post_install_script: options.post_install_script is Some,
        pre_uninstall_script: options.pre_uninstall_script is Some,
        post_uninstall_script: options.post_uninstall_script is Some,
        dependencies: Seq::new(
            dependencies_of(config).len(),
            |i: int| dependencies_of(config)[i].install_command is Some,
        ),
        order,
        commands: config.commands@.len(),
        desktop_shortcut: options.create_desktop_shortcut,
        start_menu_shortcut: options.create_start_menu_shortcut,
        add_to_path: options.add_to_path,
        service: options.create_service,
        uninstaller: options.create_uninstaller,
    }
}

/// The state of the orchestrator, as far as it changes during a run.
pub struct InstallerModel {
    pub operation: Operation,
    pub phase: Phase,
    /// The steps of the run.
    pub plan: Seq<Action>,
    /// The position in `plan` of the step that is performed.
    pub cursor: int,
    /// The steps of the rollback.
    pub undo: Seq<Action>,
    /// The position in `undo` of the step that is performed.
    pub undo_cursor: int,
    pub journal: JournalModel,
    /// The status of each declared component.
    pub statuses: Seq<ComponentStatus>,
    /// The name of each declared component.
    pub names: Seq<Seq<char>>,
    /// The failure that ended the run: the first one, never a later one.
    pub failure: Option<ErrorModel>,
    /// Whether every step of the rollback, or the restore, succeeded.
    pub secondary_ok: bool,
}

/// Whether the paths that this step creates are written files.
pub open spec fn records_files(a: Action) -> bool {
    a is InstallComponent || a is CopyPayload || a is RunHooks
}

/// Whether the paths that this step creates are shortcuts.
pub open spec fn records_shortcuts(a: Action) -> bool {
    a is CreateDesktopShortcut || a is CreateStartMenuShortcut
}

/// The journal once the paths that step `a` created are in it.
pub open spec fn recorded(j: JournalModel, a: Action, created: Seq<Seq<char>>) -> JournalModel {
    if records_files(a) {
        JournalModel { installed_files: j.installed_files + created, ..j }
    } else if records_shortcuts(a) {
        JournalModel { created_shortcuts: j.created_shortcuts + created, ..j }
    } else {
        j
    }
}

/// The journal once step `a` has succeeded.
pub open spec fn succeeded(j: JournalModel, a: Action, names: Seq<Seq<char>>) -> JournalModel {
    match a {
        Action::InstallComponent { index } => if index < names.len() {
            JournalModel {
                installed_components: j.installed_components.push(names[index as int]),
                ..j
            }
        } else {
            j
        },
        Action::AddToPath => JournalModel { added_to_path: true, ..j },
        Action::CreateUninstaller => JournalModel { created_uninstaller: true, ..j },
        _ => j,
    }
}

/// The statuses once the component of step `a`, if it is about one, has
/// the status `status`.
pub open spec fn marked(statuses: Seq<ComponentStatus>, a: Action, status: ComponentStatus) -> Seq<
    ComponentStatus,
> {
    match a {
        Action::InstallComponent { index } => if index < statuses.len() {
            statuses.update(index as int, status)
        } else {
            statuses
        },
        _ => statuses,
    }
}

/// How the run of `s` ended, if it has.
pub open spec fn outcome_of(s: InstallerModel) -> Outcome {
    match s.phase {
        Phase::Completed => Outcome::Completed,
        Phase::RolledBack => Outcome::RolledBack { clean: s.secondary_ok },
        Phase::Restored => Outcome::Restored { restored: s.secondary_ok },
        Phase::Failed => Outcome::Failed,
        _ => Outcome::Pending,
    }
}

/// The state that is entered with the first step of the plan.
pub open spec fn executing(s: InstallerModel) -> (InstallerModel, Action) {
    (
        InstallerModel {
            phase: Phase::Executing,
            cursor: 0,
            statuses: marked(s.statuses, s.plan[0], ComponentStatus::Installing),
            ..s
        },
        s.plan[0],
    )
}

/// The step after a backup: the plan begins, or the run fails.
pub open spec fn after_backup(s: InstallerModel, r: ResultModel) -> (InstallerModel, Action) {
    match r.error {
        None => executing(s),
        Some(message) => {
            let end = InstallerModel {
                phase: Phase::Failed,
                failure: Some(failure_of(Action::Backup, message)),
                ..s
            };
            (end, Action::Finish { outcome: Outcome::Failed })
        },
    }
}

/// The step after a step of the plan. What the step created enters the
/// journal whether the step succeeded or not. After a success the next step
/// of the plan follows, and after the last one the cleanup, or the end of
/// the run, at which the journal is discarded.
/// After a failure an install is rolled back, an update is restored from
/// its backup, and a repair or an uninstall ends.
pub open spec fn after_step(s: InstallerModel, r: ResultModel) -> (InstallerModel, Action) {
    let current = s.plan[s.cursor];
    let journal = recorded(s.journal, current, r.created);
    match r.error {
        None => {
            let done = InstallerModel {
                journal: succeeded(journal, current, s.names),
                statuses: marked(s.statuses, current, ComponentStatus::Installed),
                cursor: s.cursor + 1,
                ..s
            };
            if s.cursor + 1 < s.plan.len() {
                let next = s.plan[s.cursor + 1];
                (
                    InstallerModel {
                        statuses: marked(done.statuses, next, ComponentStatus::Installing),
                        ..done
                    },
                    next,
                )
            } else if s.operation is Install || s.operation is Update {
                (InstallerModel { phase: Phase::CleaningUp, ..done }, Action::CleanupTemp)
            } else {
                (
                    InstallerModel { phase: Phase::Completed, journal: empty_journal(), ..done },
                    Action::Finish { outcome: Outcome::Completed },
                )
            }
        },
        Some(message) => {
            let broken = InstallerModel {
                journal,
                statuses: marked(s.statuses, current, ComponentStatus::Broken),
                failure: Some(failure_of(current, message)),
                ..s
            };
            match s.operation {
                Operation::Install => {
                    let undo = rollback_actions(journal);
                    (
                        InstallerModel {
                            phase: Phase::RollingBack,
                            undo,
                            undo_cursor: 0,
                            secondary_ok: true,
                            ..broken
                        },
                        undo[0],
                    )
                },
                Operation::Update => (
                    InstallerModel { phase: Phase::Restoring, ..broken },
                    Action::Restore,
                ),
                _ => (
                    InstallerModel { phase: Phase::Failed, ..broken },
                    Action::Finish { outcome: Outcome::Failed },
                ),
            }
        },
    }
}

/// The step after a step of the rollback. A failure of the step is noted
/// and stops nothing: the next step follows, and after the last one the
/// journal is empty and the cleanup follows.
pub open spec fn after_undo(s: InstallerModel, r: ResultModel) -> (InstallerModel, Action) {
    let noted = InstallerModel {
        secondary_ok: s.secondary_ok && r.error is None,
        undo_cursor: s.undo_cursor + 1,
        ..s
    };
    if s.undo_cursor + 1 < s.undo.len() {
        (noted, s.undo[s.undo_cursor + 1])
    } else {
        (
            InstallerModel { phase: Phase::CleaningUp, journal: empty_journal(), ..noted },
            Action::CleanupTemp,
        )
    }
}

/// The step after the restore of a backup: the cleanup, whether the restore
/// succeeded or not.
pub open spec fn after_restore(s: InstallerModel, r: ResultModel) -> (InstallerModel, Action) {
    (
        InstallerModel { phase: Phase::CleaningUp, secondary_ok: r.error is None, ..s },
        Action::CleanupTemp,
    )
}

/// The step after the cleanup: the end of the run. A failure of the cleanup
/// changes nothing of it. A run that has succeeded discards its journal.
pub open spec fn after_cleanup(s: InstallerModel, r: ResultModel) -> (InstallerModel, Action) {
    let end = if s.failure is None {
        InstallerModel { phase: Phase::Completed, journal: empty_journal(), ..s }
    } else if s.operation is Install {
        InstallerModel { phase: Phase::RolledBack, ..s }
    } else if s.operation is Update {
        InstallerModel { phase: Phase::Restored, ..s }
    } else {
        InstallerModel { phase: Phase::Failed, ..s }
    };
    (end, Action::Finish { outcome: outcome_of(end) })
}

/// The transition of the orchestrator: from a state and the result of the
/// step that was performed, to the next state and the next step. Outside a
/// run nothing changes.
pub open spec fn spec_advance(s: InstallerModel, r: ResultModel) -> (InstallerModel, Action) {
    match s.phase {
        Phase::BackingUp => after_backup(s, r),
        Phase::Executing => after_step(s, r),
        Phase::RollingBack => after_undo(s, r),
        Phase::Restoring => after_restore(s, r),
        Phase::CleaningUp => after_cleanup(s, r),
        _ => (s, Action::Finish { outcome: outcome_of(s) }),
    }
}

/// What holds of every state that the orchestrator reaches.
pub open spec fn model_wf(s: InstallerModel) -> bool {
    &&& s.statuses.len() == s.names.len()
    &&& s.phase is Idle ==> s.failure is None
    &&& s.phase is Preparing || s.phase is BackingUp ==> s.plan.len() > 0 && s.failure is None
    &&& s.phase is Executing ==> 0 <= s.cursor < s.plan.len() && s.failure is None
    &&& s.phase is RollingBack ==> {
        &&& s.operation is Install
        &&& s.failure is Some
        &&& s.undo == rollback_actions(s.journal)
        &&& 0 <= s.undo_cursor < s.undo.len()
    }
    &&& s.phase is Restoring ==> s.operation is Update && s.failure is Some
    &&& s.phase is CleaningUp ==> (s.failure is Some ==> {
        &&& s.operation is Install || s.operation is Update
        &&& s.operation is Install ==> s.journal == empty_journal()
    })
    &&& s.phase is Completed ==> s.failure is None && s.journal == empty_journal()
    &&& s.phase is RolledBack ==> {
        &&& s.operation is Install
        &&& s.failure is Some
        &&& s.journal == empty_journal()
    }
    &&& s.phase is Restored ==> s.operation is Update && s.failure is Some
    &&& s.phase is Failed ==> s.failure is Some
}

/// The steps of a run of `operation`.
pub open spec fn plan_of(operation: Operation, i: PlanInputs) -> Seq<Action> {
    match operation {
        Operation::Install => pipeline(i, false),
        Operation::Update => pipeline(i, true),
        Operation::Uninstall => uninstall_steps(i),
        Operation::Repair => repair_steps(i),
    }
}

/// Whether a run of `operation` installs components, and so needs them in order.
pub open spec fn needs_order(operation: Operation) -> bool {
    operation is Install || operation is Update
}

/// `order` lists the positions of all components of `g` in installation order.
pub open spec fn is_component_order(g: Seq<NodeModel>, order: Seq<usize>) -> bool {
    &&& order.len() == g.len()
    &&& forall|p: int| 0 <= p < order.len() ==> (#[trigger] order[p]) < g.len()
    &&& is_resolution(g, ordered_names(g, order))
}

/// The state in which a run waits for its first step.
pub open spec fn prepared_state(
    s: InstallerModel,
    operation: Operation,
    plan: Seq<Action>,
) -> InstallerModel {
    InstallerModel { operation, phase: Phase::Preparing, plan, cursor: 0, ..s }
}

/// The state in which a run has failed before its first step.
pub open spec fn refused_state(
    s: InstallerModel,
    operation: Operation,
    kind: ErrorKind,
    message: Seq<char>,
) -> InstallerModel {
    InstallerModel {
        operation,
        phase: Phase::Failed,
        failure: Some(ErrorModel { kind, message }),
        ..s
    }
}

/// The first step of a prepared run: an update begins with its backup, any
/// other run with the first step of its plan.
pub open spec fn spec_begin(s: InstallerModel) -> (InstallerModel, Action) {
    if s.operation is Update {
        (InstallerModel { phase: Phase::BackingUp, cursor: 0, ..s }, Action::Backup)
    } else {
        executing(s)
    }
}

/// The message of the failure for a version that cannot be read.
pub open spec fn version_message() -> Seq<char> {
    "invalid version format"@
}

/// The name of the backup directory that is made at the time `stamp`.
pub open spec fn backup_name_at(stamp: Seq<char>) -> Seq<char> {
    "backup_"@ + stamp
}

/// What a check of the installed version against the new one reports.
pub open spec fn update_status(current: Option<VersionModel>, new: VersionModel) -> UpdateStatus {
    match current {
        None => UpdateStatus::NotInstalled,
        Some(installed) => if spec_compare(installed, new) < 0 {
            UpdateStatus::UpdateAvailable
        } else if spec_compare(installed, new) == 0 {
            UpdateStatus::UpToDate
        } else {
            UpdateStatus::NewerInstalled
        },
    }
}

/// The text of a version marker, if there is a marker.
pub open spec fn marker_text(marker: Option<&str>) -> Option<Seq<char>> {
    match marker {
        Some(content) => Some(content@),
        None => None,
    }
}

/// How an update begins from the idle state `old`, given the content of
/// the version marker and the time stamp for the name of the backup. The
/// new version is the version of the project in the configuration. A check
/// of versions, and an update that is not due, change nothing.
pub open spec fn updated(
    old: &Installer,
    new: &Installer,
    marker: Option<Seq<char>>,
    stamp: Seq<char>,
    action: Action,
) -> bool {
    match (spec_current_version(marker), spec_parse(old.config.project.version@)) {
        (Ok(current), Ok(latest)) => {
            if old.args.check {
                &&& *new == *old
                &&& action == Action::Finish {
                    outcome: Outcome::Checked { status: update_status(current, latest) },
                }
            } else if !spec_check_update(current, latest, old.args.force) {
                &&& *new == *old
                &&& action == Action::Finish { outcome: Outcome::UpToDate }
            } else {
                &&& started(old, new, Operation::Update, action)
                &&& match new.backup_name {
                    Some(name) => old.args.backup_dir is None && name@ == backup_name_at(stamp),
                    None => old.args.backup_dir is Some,
                }
            }
        },
        _ => {
            &&& action == Action::Finish { outcome: Outcome::Failed }
            &&& new@ == refused_state(
                old@,
                Operation::Update,
                ErrorKind::VersionParse,
                version_message(),
            )
        },
    }
}

/// The orchestrator.
#[derive(Debug)]
pub struct Installer {
    /// The configuration document.
    pub config: Config,
    /// The command line.
    pub args: Args,
    /// The install directory.
    pub install_dir: String,
    /// The adapter of the operating system.
    pub platform: PlatformImpl,
    /// The status of each declared component, by its position.
    pub component_status: Vec<ComponentStatus>,
    /// The directory of the temporary working files.
    pub temp_dir: String,
    /// What the run has changed so far.
    pub journal: RollbackJournal,
    /// What was asked for.
    pub operation: Operation,
    /// The state of the run.
    pub phase: Phase,
    /// The steps of the run.
    pub plan: Vec<Action>,
    /// The position in `plan` of the step that is performed.
    pub cursor: usize,
    /// The steps of the rollback.
    pub undo: Vec<Action>,
    /// The position in `undo` of the step that is performed.
    pub undo_cursor: usize,
    /// The failure that ended the run.
    pub failure: Option<InstallError>,
    /// Whether every step of the rollback, or the restore, succeeded.
    pub secondary_ok: bool,
    /// The positions of the components, in installation order.
    pub order: Vec<usize>,
    /// The components that could not be ordered, when that ended the run.
    pub unresolved: Vec<String>,
    /// The directory below the temporary directory that holds the backup
    /// of an update, when the command line names no backup directory.
    pub backup_name: Option<String>,
}

impl View for Installer {
    type V = InstallerModel;

    open spec fn view(&self) -> InstallerModel {
        InstallerModel {
            operation: self.operation,
            phase: self.phase,
            plan: self.plan@,
            cursor: self.cursor as int,
            undo: self.undo@,
            undo_cursor: self.undo_cursor as int,
            journal: self.journal@,
            statuses: self.component_status@,
            names: Seq::new(
                components_of(&self.config).len(),
                |i: int| components_of(&self.config)[i].name@,
            ),
            failure: match self.failure {
                Some(e) => Some(e@),
                None => None,
            },
            secondary_ok: self.secondary_ok,
        }
    }
}

/// The message of the failure for components that cannot be ordered.
pub open spec fn cycle_message() -> Seq<char> {
    "component dependency graph contains a cycle"@
}

/// The message of the failure for a component name that is declared twice.
pub open spec fn duplicate_message() -> Seq<char> {
    "duplicate component name"@
}

/// How a run of `operation` begins from the idle state `old`: with its
/// first step, the components in order where it installs them; or, where
/// the components cannot be ordered, with the end of the run.
pub open spec fn started(old: &Installer, new: &Installer, operation: Operation, action: Action) -> bool {
    let g = component_graph(&old.config);
    if needs_order(operation) && !distinct_names(g) {
        &&& action == Action::Finish { outcome: Outcome::Failed }
        &&& new@ == refused_state(old@, operation, ErrorKind::Config, duplicate_message())
        &&& new.unresolved == old.unresolved
    } else if needs_order(operation) && unresolved(g).len() > 0 {
        &&& action == Action::Finish { outcome: Outcome::Failed }
        &&& new@ == refused_state(old@, operation, ErrorKind::DependencyCycle, cycle_message())
        &&& new.unresolved.deep_view() == unresolved(g)
    } else {
        &&& new.unresolved == old.unresolved
        &&& needs_order(operation) ==> is_component_order(g, new.order@)
        &&& !needs_order(operation) ==> new.order@ == Seq::<usize>::empty()
        &&& (new@, action) == spec_begin(
            prepared_state(
                old@,
                operation,
                plan_of(operation, plan_inputs(&old.config, old.spec_options(), new.order@)),
            ),
        )
    }
}

/// Where a place in which the payload is looked for is counted from.
#[derive(Debug, Clone, Copy, PartialEq, Eq, Structural)]
pub enum PayloadBase {
    /// The directory of the installer's executable.
    Executable,
    /// The working directory, or the root when the path is absolute.
    Anywhere,
}

/// A place in which the payload of the product is looked for.
#[derive(Debug)]
pub struct PayloadPlace {
    pub base: PayloadBase,
    pub path: String,
}

/// The number of places in which the payload is looked for.
pub const PAYLOAD_PLACES: usize = 12;

/// The place number `index` in which the payload is looked for: its base
/// and its path. The places are tried in order, and the first that is a
/// directory holds the payload.
pub open spec fn spec_payload_place(index: int) -> (PayloadBase, Seq<char>) {
    if index == 0 {
        (PayloadBase::Executable, "building"@)
    } else if index == 1 {
        (PayloadBase::Anywhere, "building"@)
    } else if index == 2 {
        (PayloadBase::Anywhere, "../building"@)
    } else if index == 3 {
        (PayloadBase::Anywhere, "../../building"@)
    } else if index == 4 {
        (PayloadBase::Anywhere, "/opt/seesea-installer/building"@)
    } else if index == 5 {
        (PayloadBase::Anywhere, "C:\\Program Files\\SeeSea-Installer\\building"@)
    } else if index == 6 {
        (PayloadBase::Anywhere, "/Applications/SeeSea-Installer/building"@)
    } else if index == 7 {
        (PayloadBase::Executable, "../lib/seesea-installer/building"@)
    } else if index == 8 {
        (PayloadBase::Anywhere, "/usr/lib/seesea-installer/building"@)
    } else if index == 9 {
        (PayloadBase::Anywhere, "/lib/seesea-installer/building"@)
    } else if index == 10 {
        (PayloadBase::Anywhere, "/usr/local/lib/seesea-installer/building"@)
    } else {
        (PayloadBase::Anywhere, "/opt/seesea-installer/building"@)
    }
}

/// The place number `index` in which the payload is looked for.
fn payload_place(index: usize) -> (r: PayloadPlace)
    ensures
        (r.base, r.path@) == spec_payload_place(index as int),
{
    let (base, path) = if index == 0 {
        (PayloadBase::Executable, "building")
    } else if index == 1 {
        (PayloadBase::Anywhere, "building")
    } else if index == 2 {
        (PayloadBase::Anywhere, "../building")
    } else if index == 3 {
        (PayloadBase::Anywhere, "../../building")
    } else if index == 4 {
        (PayloadBase::Anywhere, "/opt/seesea-installer/building")
    } else if index == 5 {
        (PayloadBase::Anywhere, "C:\\Program Files\\SeeSea-Installer\\building")
    } else if index == 6 {
        (PayloadBase::Anywhere, "/Applications/SeeSea-Installer/building")
    } else if index == 7 {
        (PayloadBase::Executable, "../lib/seesea-installer/building")
    } else if index == 8 {
        (PayloadBase::Anywhere, "/usr/lib/seesea-installer/building")
    } else if index == 9 {
        (PayloadBase::Anywhere, "/lib/seesea-installer/building")
    } else if index == 10 {
        (PayloadBase::Anywhere, "/usr/local/lib/seesea-installer/building")
    } else {
        (PayloadBase::Anywhere, "/opt/seesea-installer/building")
    };
    PayloadPlace { base, path: String::from_str(path) }
}

/// The places in which the payload of the product is looked for, in the
/// order in which they are tried.
pub fn payload_places() -> (r: Vec<PayloadPlace>)
    ensures
        r.len() == PAYLOAD_PLACES,
        forall|i: int|
            0 <= i < r.len() ==> ((#[trigger] r@[i]).base, r@[i].path@) == spec_payload_place(i),
{
    let mut places: Vec<PayloadPlace> = Vec::new();
    let mut i: usize = 0;
    while i < PAYLOAD_PLACES
        invariant
            i <= PAYLOAD_PLACES,
            places.len() == i,
            forall|j: int|
                0 <= j < i ==> ((#[trigger] places@[j]).base, places@[j].path@)
                    == spec_payload_place(j),
        decreases PAYLOAD_PLACES - i,
    {
        places.push(payload_place(i));
        i += 1;
    }
    places
}

/// The local time as text, for the name of a backup.
///
/// Not verified: the body calls `chrono::Local::now` and writes the result
/// with `DateTime::format` and the pattern `%Y%m%d_%H%M%S`. The text depends
/// on the clock and the time zone of the machine, so nothing is claimed of
/// it.
#[verifier::external_body]
fn local_timestamp() -> String {
    chrono::Local::now().format("%Y%m%d_%H%M%S").to_string()
}

/// Appends `action` to `plan` when it is wanted.
fn push_if(plan: &mut Vec<Action>, wanted: bool, action: Action)
    ensures
        final(plan)@ == old(plan)@ + step_if(wanted, action),
{
    if wanted {
        plan.push(action);
    }
    assert(final(plan)@ =~= old(plan)@ + step_if(wanted, action));
}

/// Appends `action` to `plan`.
fn push_step(plan: &mut Vec<Action>, action: Action)
    ensures
        final(plan)@ == old(plan)@ + seq![action],
{
    plan.push(action);
    assert(final(plan)@ =~= old(plan)@ + seq![action]);
}

impl Installer {
    /// What holds of every orchestrator.
    pub open spec fn wf(&self) -> bool {
        model_wf(self@)
    }

    /// Whether `other` has the configuration, command line, directories and
    /// platform of `self`: what a run never changes.
    pub open spec fn same_setup(&self, other: &Installer) -> bool {
        &&& self.config == other.config
        &&& self.args == other.args
        &&& self.install_dir == other.install_dir
        &&& self.platform == other.platform
        &&& self.temp_dir == other.temp_dir
    }

    /// The install options that hold for this run.
    pub open spec fn spec_options(&self) -> InstallOptions {
        spec_install_options(&self.platform, &self.config)
    }

    /// The install options that hold for this run.
    pub fn options(&self) -> (r: &InstallOptions)
        ensures
            *r == self.spec_options(),
    {
        self.platform.get_install_options(&self.config)
    }

    /// An orchestrator for a configuration on a platform. The install
    /// directory is the one of the command line, and the default of the
    /// platform's install options when the command line names none.
    pub fn new(config: Config, args: Args, platform: PlatformImpl, temp_dir: String) -> (r:
        Installer)
        ensures
            r.wf(),
            r.config == config,
            r.args == args,
            r.platform == platform,
            r.temp_dir == temp_dir,
            r.install_dir@ == match args.install_dir {
                Some(dir) => dir@,
                None => spec_install_options(&platform, &config).default_dir@,
            },
            r.phase is Idle,
            r@.journal == empty_journal(),
            r@.failure is None,
            r@.plan.len() == 0,
            r.order@.len() == 0,
            r.unresolved@.len() == 0,
            r.backup_name is None,
            r@.statuses == Seq::new(
                components_of(&config).len(),
                |i: int| ComponentStatus::NotInstalled,
            ),
    {
        let install_dir = match &args.install_dir {
            Some(dir) => dir.clone(),
            None => platform.get_install_options(&config).default_dir.clone(),
        };
        let count = match &config.components {
            Some(list) => list.len(),
            None => 0,
        };
        let mut component_status: Vec<ComponentStatus> = Vec::new();
        while component_status.len() < count
            invariant
                component_status.len() <= count,
                forall|i: int|
                    0 <= i < component_status.len() ==> component_status@[i]
                        == ComponentStatus::NotInstalled,
            decreases count - component_status.len(),
        {
            component_status.push(ComponentStatus::NotInstalled);
        }
        let r = Installer {
            config,
            args,
            install_dir,
            platform,
            component_status,
            temp_dir,
            journal: RollbackJournal::new(),
            operation: Operation::Install,
            phase: Phase::Idle,
            plan: Vec::new(),
            cursor: 0,
            undo: Vec::new(),
            undo_cursor: 0,
            failure: None,
            secondary_ok: true,
            order: Vec::new(),
            unresolved: Vec::new(),
            backup_name: None,
        };
        assert(r@.statuses =~= Seq::new(
            components_of(&r.config).len(),
            |i: int| ComponentStatus::NotInstalled,
        ));
        r
    }

    /// How the run ended, if it has.
    pub fn outcome(&self) -> (r: Outcome)
        ensures
            r == outcome_of(self@),
    {
        match self.phase {
            Phase::Completed => Outcome::Completed,
            Phase::RolledBack => Outcome::RolledBack { clean: self.secondary_ok },
            Phase::Restored => Outcome::Restored { restored: self.secondary_ok },
            Phase::Failed => Outcome::Failed,
            _ => Outcome::Pending,
        }
    }

    /// Gives the component of step `a`, if it is about one, the status `status`.
    fn mark(&mut self, a: Action, status: ComponentStatus)
        ensures
            final(self).component_status@ == marked(old(self).component_status@, a, status),
            final(self).same_setup(old(self)),
            final(self).journal == old(self).journal,
            final(self).operation == old(self).operation,
            final(self).phase == old(self).phase,
            final(self).plan == old(self).plan,
            final(self).cursor == old(self).cursor,
            final(self).undo == old(self).undo,
            final(self).undo_cursor == old(self).undo_cursor,
            final(self).failure == old(self).failure,
            final(self).secondary_ok == old(self).secondary_ok,
            final(self).order == old(self).order,
            final(self).unresolved == old(self).unresolved,
            final(self).backup_name == old(self).backup_name,
    {
        match a {
            Action::InstallComponent { index } => {
                if index < self.component_status.len() {
                    self.component_status.set(index, status);
                }
            },
            _ => {},
        }
    }

    /// The dependency graph of the declared components, unless a name is
    /// declared twice.
    fn component_graph(&self) -> (r: Option<DependencyGraph>)
        ensures
            match r {
                Some(g) => g.wf() && g@ == component_graph(&self.config),
                None => !distinct_names(component_graph(&self.config)),
            },
    {
        let mut g = DependencyGraph::new();
        let ghost target = component_graph(&self.config);
        match &self.config.components {
            None => {
                assert(g@ =~= target);
            },
            Some(list) => {
                let mut i: usize = 0;
                while i < list.len()
                    invariant
                        i <= list.len(),
                        self.config.components == Some(*list),
                        target == component_graph(&self.config),
                        g.wf(),
                        g@ == target.take(i as int),
                    decreases list.len() - i,
                {
                    let component = &list[i];
                    match g.position(&component.name) {
                        Some(j) => {
                            assert(target[j as int].name == target[i as int].name) by {
                                assert(g@[j as int] == target[j as int]);
                            }
                            return None;
                        },
                        None => {},
                    }
                    let depends_on = match &component.depends_on {
                        Some(names) => clone_strings(names),
                        None => Vec::new(),
                    };
                    assert(depends_on.deep_view() =~= listed(component.depends_on));
                    let ghost before = g@;
                    g.insert(component.name.clone(), depends_on);
                    assert(node_index(before, component.name@) is None);
                    assert(g@ =~= target.take(i + 1));
                    i += 1;
                }
                assert(target.take(list.len() as int) =~= target);
            },
        }
        Some(g)
    }

    /// The positions in `g` of the names of a resolution of `g`.
    fn positions(g: &DependencyGraph, names: &Vec<String>) -> (order: Vec<usize>)
        requires
            g.wf(),
            names.len() == g@.len(),
            is_resolution(g@, names.deep_view()),
        ensures
            is_component_order(g@, order@),
    {
        proof {
            lemma_resolution_is_injective(g@, names.deep_view());
        }
        let mut order: Vec<usize> = Vec::new();
        let mut p: usize = 0;
        while p < names.len()
            invariant
                p <= names.len(),
                order.len() == p,
                forall|q: int| 0 <= q < names.len() ==> has_node(
                    g@,
                    #[trigger] names.deep_view()[q],
                ),
                forall|q: int|
                    0 <= q < p ==> (#[trigger] order@[q]) < g@.len() && g@[order@[q] as int].name
                        == names.deep_view()[q],
            decreases names.len() - p,
        {
            assert(has_node(g@, names.deep_view()[p as int]));
            match g.position(&names[p]) {
                Some(i) => {
                    order.push(i);
                },
                None => {
                    // Every name of a resolution is declared.
                    assert(false);
                    order.push(0);
                },
            }
            p += 1;
        }
        assert(ordered_names(g@, order@) =~= names.deep_view());
        order
    }

    /// Whether plugins are declared.
    fn has_plugins(&self) -> (r: bool)
        ensures
            r == (plugins_of(&self.config).len() > 0),
    {
        match &self.config.plugins {
            Some(list) => list.len() > 0,
            None => false,
        }
    }

    /// The steps of an install or an update before the components.
    fn build_before_components(&self, update: bool) -> (plan: Vec<Action>)
        ensures
            forall|order: Seq<usize>|
                plan@ == #[trigger] steps_before_components(
                    plan_inputs(&self.config, self.spec_options(), order),
                    update,
                ),
    {
        let options = self.options();
        let ghost i = plan_inputs(&self.config, *options, Seq::<usize>::empty());
        let mut plan: Vec<Action> = Vec::new();
        push_if(&mut plan, self.has_plugins(), Action::RunHooks { point: HookPoint::PreInstall });
        assert(plan@ =~= step_if(i.plugins, Action::RunHooks { point: HookPoint::PreInstall }));
        push_if(
            &mut plan,
            options.pre_install_script.is_some(),
            Action::RunScript { script: Script::PreInstall },
        );
        push_step(&mut plan, Action::CheckSystemRequirements);
        push_if(&mut plan, !update, Action::CreateInstallDir);
        let ghost head = plan@;
        match &self.config.dependencies {
            None => {
                assert(plan@ =~= head + dependency_steps(i.dependencies, 0));
            },
            Some(list) => {
                let mut k: usize = 0;
                assert(plan@ =~= head + dependency_steps(i.dependencies, 0));
                while k < list.len()
                    invariant
                        k <= list.len(),
                        self.config.dependencies == Some(*list),
                        i.dependencies == Seq::new(
                            dependencies_of(&self.config).len(),
                            |d: int| dependencies_of(&self.config)[d].install_command is Some,
                        ),
                        plan@ == head + dependency_steps(i.dependencies, k as int),
                    decreases list.len() - k,
                {
                    push_if(
                        &mut plan,
                        list[k].install_command.is_some(),
                        Action::InstallDependency { index: k },
                    );
                    assert(plan@ =~= head + dependency_steps(i.dependencies, k + 1));
                    k += 1;
                }
            },
        }
        assert(plan@ == steps_before_components(i, update));
        assert forall|order: Seq<usize>|
            plan@ == #[trigger] steps_before_components(
                plan_inputs(&self.config, self.spec_options(), order),
                update,
            ) by {
            let j = plan_inputs(&self.config, self.spec_options(), order);
            assert(j.dependencies == i.dependencies);
        }
        plan
    }

    /// The steps of an install or an update after the components.
    fn build_after_components(&self, update: bool) -> (plan: Vec<Action>)
        ensures
            forall|order: Seq<usize>|
                plan@ == #[trigger] steps_after_components(
                    plan_inputs(&self.config, self.spec_options(), order),
                    update,
                ),
    {
        let options = self.options();
        let ghost i = plan_inputs(&self.config, *options, Seq::<usize>::empty());
        let mut plan: Vec<Action> = Vec::new();
        plan.push(Action::CopyPayload);
        assert(plan@ =~= seq![Action::CopyPayload]);
        push_if(&mut plan, options.create_desktop_shortcut, Action::CreateDesktopShortcut);
        push_if(&mut plan, options.create_start_menu_shortcut, Action::CreateStartMenuShortcut);
        push_if(&mut plan, options.add_to_path, Action::AddToPath);
        push_if(&mut plan, options.create_service, Action::CreateService);
        push_if(&mut plan, options.create_uninstaller, Action::CreateUninstaller);
        let ghost head = plan@;
        let count = self.config.commands.len();
        let mut c: usize = 0;
        assert(plan@ =~= head + command_steps(i.commands).take(0));
        while c < count
            invariant
                c <= count,
                count == i.commands,
                plan@ == head + command_steps(i.commands).take(c as int),
            decreases count - c,
        {
            plan.push(Action::RunCommand { index: c });
            assert(plan@ =~= head + command_steps(i.commands).take(c + 1));
            c += 1;
        }
        assert(command_steps(i.commands).take(count as int) =~= command_steps(i.commands));
        push_if(
            &mut plan,
            options.post_install_script.is_some(),
            Action::RunScript { script: Script::PostInstall },
        );
        push_if(&mut plan, self.has_plugins(), Action::RunHooks { point: HookPoint::PostInstall });
        push_if(&mut plan, update, Action::SaveVersion);
        assert(plan@ == steps_after_components(i, update));
        assert forall|order: Seq<usize>|
            plan@ == #[trigger] steps_after_components(
                plan_inputs(&self.config, self.spec_options(), order),
                update,
            ) by {
            let j = plan_inputs(&self.config, self.spec_options(), order);
            assert(j.commands == i.commands);
        }
        plan
    }

    /// The steps of an install or an update with the components in `order`.
    fn build_pipeline(&self, order: &Vec<usize>, update: bool) -> (plan: Vec<Action>)
        ensures
            plan@ == pipeline(plan_inputs(&self.config, self.spec_options(), order@), update),
    {
        let ghost i = plan_inputs(&self.config, self.spec_options(), order@);
        let mut plan = self.build_before_components(update);
        let tail = self.build_after_components(update);
        let ghost head = plan@;
        assert(head == steps_before_components(i, update));
        assert(tail@ == steps_after_components(i, update));
        let mut p: usize = 0;
        assert(plan@ =~= head + component_steps(order@).take(0));
        while p < order.len()
            invariant
                p <= order.len(),
                plan@ == head + component_steps(order@).take(p as int),
            decreases order.len() - p,
        {
            plan.push(Action::InstallComponent { index: order[p] });
            assert(plan@ =~= head + component_steps(order@).take(p + 1));
            p += 1;
        }
        assert(component_steps(order@).take(order.len() as int) =~= component_steps(order@));
        let ghost head = plan@;
        let mut t: usize = 0;
        assert(plan@ =~= head + tail@.take(0));
        while t < tail.len()
            invariant
                t <= tail.len(),
                plan@ == head + tail@.take(t as int),
            decreases tail.len() - t,
        {
            plan.push(tail[t]);
            assert(plan@ =~= head + tail@.take(t + 1));
            t += 1;
        }
        assert(tail@.take(tail.len() as int) =~= tail@);
        plan
    }

    /// The steps of an uninstall.
    fn build_uninstall(&self) -> (plan: Vec<Action>)
        ensures
            plan@ == uninstall_steps(
                plan_inputs(&self.config, self.spec_options(), Seq::<usize>::empty()),
            ),
    {
        let options = self.options();
        let ghost i = plan_inputs(&self.config, *options, Seq::<usize>::empty());
        let has_plugins = self.has_plugins();
        let mut plan: Vec<Action> = Vec::new();
        push_if(&mut plan, has_plugins, Action::RunHooks { point: HookPoint::PreUninstall });
        assert(plan@ =~= step_if(i.plugins, Action::RunHooks { point: HookPoint::PreUninstall }));
        push_if(
            &mut plan,
            options.pre_uninstall_script.is_some(),
            Action::RunScript { script: Script::PreUninstall },
        );
        let ghost head = plan@;
        plan.push(Action::RemoveShortcuts);
        plan.push(Action::RemoveFromPath);
        plan.push(Action::RemoveDependencies);
        plan.push(Action::RemoveUninstaller);
        plan.push(Action::DeleteInstallDir);
        assert(plan@ =~= head + seq![
            Action::RemoveShortcuts,
            Action::RemoveFromPath,
            Action::RemoveDependencies,
            Action::RemoveUninstaller,
            Action::DeleteInstallDir,
        ]);
        push_if(
            &mut plan,
            options.post_uninstall_script.is_some(),
            Action::RunScript { script: Script::PostUninstall },
        );
        push_if(&mut plan, has_plugins, Action::RunHooks { point: HookPoint::PostUninstall });
        plan
    }

    /// The steps of a repair.
    fn build_repair(&self) -> (plan: Vec<Action>)
        ensures
            plan@ == repair_steps(
                plan_inputs(&self.config, self.spec_options(), Seq::<usize>::empty()),
            ),
    {
        let options = self.options();
        let ghost i = plan_inputs(&self.config, *options, Seq::<usize>::empty());
        let has_plugins = self.has_plugins();
        let mut plan: Vec<Action> = Vec::new();
        push_if(&mut plan, has_plugins, Action::RunHooks { point: HookPoint::PreRepair });
        assert(plan@ =~= step_if(i.plugins, Action::RunHooks { point: HookPoint::PreRepair }));
        let ghost head = plan@;
        plan.push(Action::VerifyInstallDir);
        plan.push(Action::CopyPayload);
        assert(plan@ =~= head + seq![Action::VerifyInstallDir, Action::CopyPayload]);
        push_if(&mut plan, options.create_desktop_shortcut, Action::CreateDesktopShortcut);
        push_if(&mut plan, options.create_start_menu_shortcut, Action::CreateStartMenuShortcut);
        push_if(&mut plan, options.add_to_path, Action::AddToPath);
        push_if(&mut plan, has_plugins, Action::RunHooks { point: HookPoint::PostRepair });
        plan
    }

    /// Ends a run before its first step.
    fn refuse(&mut self, operation: Operation, kind: ErrorKind, message: &str)
        ensures
            final(self)@ == refused_state(old(self)@, operation, kind, message@),
            final(self).same_setup(old(self)),
            final(self).order == old(self).order,
            final(self).unresolved == old(self).unresolved,
            final(self).backup_name == old(self).backup_name,
    {
        self.operation = operation;
        self.failure = Some(InstallError { kind, message: String::from_str(message) });
        self.phase = Phase::Failed;
    }

    /// The order of the components and the steps of a run of `operation`;
    /// or the kind of the failure that keeps the run from beginning, with
    /// the components that could not be ordered.
    fn make_plan(&self, operation: Operation) -> (r: Result<
        (Vec<usize>, Vec<Action>),
        (ErrorKind, Vec<String>),
    >)
        ensures
            ({
                let g = component_graph(&self.config);
                match r {
                    Err((kind, rest)) => {
                        &&& needs_order(operation)
                        &&& !distinct_names(g) ==> kind == ErrorKind::Config
                        &&& distinct_names(g) ==> {
                            &&& kind == ErrorKind::DependencyCycle
                            &&& unresolved(g).len() > 0
                            &&& rest.deep_view() == unresolved(g)
                        }
                    },
                    Ok((order, plan)) => {
                        &&& needs_order(operation) ==> {
                            &&& distinct_names(g)
                            &&& unresolved(g).len() == 0
                            &&& is_component_order(g, order@)
                        }
                        &&& !needs_order(operation) ==> order@ == Seq::<usize>::empty()
                        &&& plan@ == plan_of(
                            operation,
                            plan_inputs(&self.config, self.spec_options(), order@),
                        )
                    },
                }
            }),
    {
        match operation {
            Operation::Uninstall => {
                let order: Vec<usize> = Vec::new();
                assert(order@ =~= Seq::<usize>::empty());
                Ok((order, self.build_uninstall()))
            },
            Operation::Repair => {
                let order: Vec<usize> = Vec::new();
                assert(order@ =~= Seq::<usize>::empty());
                Ok((order, self.build_repair()))
            },
            _ => {
                let g = match self.component_graph() {
                    Some(g) => g,
                    None => {
                        return Err((ErrorKind::Config, Vec::new()));
                    },
                };
                match g.resolve() {
                    Err(e) => Err((ErrorKind::DependencyCycle, e.unresolved)),
                    Ok(names) => {
                        let order = Self::positions(&g, &names);
                        let plan = match operation {
                            Operation::Update => self.build_pipeline(&order, true),
                            _ => self.build_pipeline(&order, false),
                        };
                        Ok((order, plan))
                    },
                }
            },
        }
    }

    /// Builds the plan of a run of `operation`. For an install or an update
    /// the components are put in order first. The answer says whether the
    /// run can begin; when it cannot, the run has failed, and nothing was
    /// changed on the machine.
    pub fn prepare(&mut self, operation: Operation) -> (ok: bool)
        requires
            old(self).wf(),
            old(self).phase is Idle,
        ensures
            final(self).wf(),
            final(self).same_setup(old(self)),
            final(self).backup_name == old(self).backup_name,
            ({
                let g = component_graph(&old(self).config);
                if needs_order(operation) && !distinct_names(g) {
                    &&& !ok
                    &&& final(self)@ == refused_state(
                        old(self)@,
                        operation,
                        ErrorKind::Config,
                        duplicate_message(),
                    )
                    &&& final(self).unresolved == old(self).unresolved
                } else if needs_order(operation) && unresolved(g).len() > 0 {
                    &&& !ok
                    &&& final(self)@ == refused_state(
                        old(self)@,
                        operation,
                        ErrorKind::DependencyCycle,
                        cycle_message(),
                    )
                    &&& final(self).unresolved.deep_view() == unresolved(g)
                } else {
                    &&& ok
                    &&& final(self).unresolved == old(self).unresolved
                    &&& needs_order(operation) ==> is_component_order(g, final(self).order@)
                    &&& !needs_order(operation) ==> final(self).order@ == Seq::<usize>::empty()
                    &&& final(self)@ == prepared_state(
                        old(self)@,
                        operation,
                        plan_of(
                            operation,
                            plan_inputs(
                                &old(self).config,
                                old(self).spec_options(),
                                final(self).order@,
                            ),
                        ),
                    )
                }
            }),
    {
        match self.make_plan(operation) {
            Ok((order, plan)) => {
                proof {
                    lemma_plans_are_not_empty(
                        operation,
                        plan_inputs(&self.config, self.spec_options(), order@),
                    );
                }
                self.order = order;
                self.plan = plan;
                self.operation = operation;
                self.cursor = 0;
                self.phase = Phase::Preparing;
                true
            },
            Err((kind, rest)) => {
                match kind {
                    ErrorKind::DependencyCycle => {
                        self.unresolved = rest;
                        self.refuse(
                            operation,
                            ErrorKind::DependencyCycle,
                            "component dependency graph contains a cycle",
                        );
                    },
                    _ => {
                        self.refuse(operation, ErrorKind::Config, "duplicate component name");
                    },
                }
                false
            },
        }
    }

    /// Begins a prepared run and gives its first step.
    pub fn begin(&mut self) -> (action: Action)
        requires
            old(self).wf(),
            old(self).phase is Preparing,
        ensures
            final(self).wf(),
            (final(self)@, action) == spec_begin(old(self)@),
            final(self).same_setup(old(self)),
            final(self).order == old(self).order,
            final(self).unresolved == old(self).unresolved,
            final(self).backup_name == old(self).backup_name,
    {
        match self.operation {
            Operation::Update => {
                self.phase = Phase::BackingUp;
                self.cursor = 0;
                Action::Backup
            },
            _ => {
                let first = self.plan[0];
                self.mark(first, ComponentStatus::Installing);
                self.phase = Phase::Executing;
                self.cursor = 0;
                first
            },
        }
    }

    /// Prepares and begins a run of `operation`; where the run cannot
    /// begin, the step is the end of the run.
    fn start(&mut self, operation: Operation) -> (action: Action)
        requires
            old(self).wf(),
            old(self).phase is Idle,
        ensures
            final(self).wf(),
            final(self).same_setup(old(self)),
            final(self).backup_name == old(self).backup_name,
            started(old(self), final(self), operation, action),
    {
        if self.prepare(operation) {
            self.begin()
        } else {
            Action::Finish { outcome: Outcome::Failed }
        }
    }

    /// Begins an install and gives its first step. Outside the idle state
    /// nothing changes, and the step is the end that the run has reached.
    pub fn install(&mut self) -> (action: Action)
        requires
            old(self).wf(),
        ensures
            final(self).wf(),
            final(self).same_setup(old(self)),
            old(self).phase is Idle ==> started(old(self), final(self), Operation::Install, action),
            !(old(self).phase is Idle) ==> *final(self) == *old(self) && action == (Action::Finish {
                outcome: outcome_of(old(self)@),
            }),
    {
        match self.phase {
            Phase::Idle => self.start(Operation::Install),
            _ => Action::Finish { outcome: self.outcome() },
        }
    }

    /// Begins an uninstall and gives its first step. Outside the idle state
    /// nothing changes, and the step is the end that the run has reached.
    pub fn uninstall(&mut self) -> (action: Action)
        requires
            old(self).wf(),
        ensures
            final(self).wf(),
            final(self).same_setup(old(self)),
            old(self).phase is Idle ==> started(
                old(self),
                final(self),
                Operation::Uninstall,
                action,
            ),
            !(old(self).phase is Idle) ==> *final(self) == *old(self) && action == (Action::Finish {
                outcome: outcome_of(old(self)@),
            }),
    {
        match self.phase {
            Phase::Idle => self.start(Operation::Uninstall),
            _ => Action::Finish { outcome: self.outcome() },
        }
    }

    /// Begins a repair and gives its first step. Outside the idle state
    /// nothing changes, and the step is the end that the run has reached.
    pub fn repair(&mut self) -> (action: Action)
        requires
            old(self).wf(),
        ensures
            final(self).wf(),
            final(self).same_setup(old(self)),
            old(self).phase is Idle ==> started(old(self), final(self), Operation::Repair, action),
            !(old(self).phase is Idle) ==> *final(self) == *old(self) && action == (Action::Finish {
                outcome: outcome_of(old(self)@),
            }),
    {
        match self.phase {
            Phase::Idle => self.start(Operation::Repair),
            _ => Action::Finish { outcome: self.outcome() },
        }
    }

    /// Begins an update, with `stamp` as the time stamp in the name of the
    /// backup. `marker` is the content of the version marker of the
    /// install directory, and `None` when there is no marker. Outside the
    /// idle state nothing changes, and the step is the end that the run has
    /// reached.
    pub fn update_at(&mut self, marker: Option<&str>, stamp: &str) -> (action: Action)
        requires
            old(self).wf(),
        ensures
            final(self).wf(),
            final(self).same_setup(old(self)),
            old(self).phase is Idle ==> updated(
                old(self),
                final(self),
                marker_text(marker),
                stamp@,
                action,
            ),
            !(old(self).phase is Idle) ==> *final(self) == *old(self) && action == (Action::Finish {
                outcome: outcome_of(old(self)@),
            }),
    {
        match self.phase {
            Phase::Idle => {},
            _ => {
                return Action::Finish { outcome: self.outcome() };
            },
        }
        let current = match get_current_version(marker) {
            Ok(v) => v,
            Err(_) => {
                self.refuse(Operation::Update, ErrorKind::VersionParse, "invalid version format");
                return Action::Finish { outcome: Outcome::Failed };
            },
        };
        let latest = match Version::parse(self.config.project.version.as_str()) {
            Ok(v) => v,
            Err(_) => {
                self.refuse(Operation::Update, ErrorKind::VersionParse, "invalid version format");
                return Action::Finish { outcome: Outcome::Failed };
            },
        };
        if self.args.check {
            let status = match &current {
                None => UpdateStatus::NotInstalled,
                Some(v) => {
                    let order = v.compare(&latest);
                    if order < 0 {
                        UpdateStatus::UpdateAvailable
                    } else if order == 0 {
                        UpdateStatus::UpToDate
                    } else {
                        UpdateStatus::NewerInstalled
                    }
                },
            };
            return Action::Finish { outcome: Outcome::Checked { status } };
        }
        if !check_update(current, &latest, self.args.force) {
            return Action::Finish { outcome: Outcome::UpToDate };
        }
        self.backup_name = match &self.args.backup_dir {
            Some(_) => None,
            None => {
                let mut name = String::from_str("backup_");
                name.append(stamp);
                Some(name)
            },
        };
        self.start(Operation::Update)
    }

    /// Begins an update; the backup is named after the local time. `marker`
    /// is the content of the version marker of the install directory, and
    /// `None` when there is no marker.
    pub fn update(&mut self, marker: Option<&str>) -> (action: Action)
        requires
            old(self).wf(),
        ensures
            final(self).wf(),
            final(self).same_setup(old(self)),
            old(self).phase is Idle ==> exists|stamp: Seq<char>| #[trigger]
                updated(old(self), final(self), marker_text(marker), stamp, action),
            !(old(self).phase is Idle) ==> *final(self) == *old(self) && action == (Action::Finish {
                outcome: outcome_of(old(self)@),
            }),
    {
        let stamp = local_timestamp();
        self.update_at(marker, stamp.as_str())
    }

    /// Whether the two lists hold the same steps.
    fn same_steps(a: &Vec<Action>, b: &Vec<Action>) -> (r: bool)
        ensures
            r == (a@ == b@),
    {
        if a.len() != b.len() {
            return false;
        }
        let mut i: usize = 0;
        while i < a.len()
            invariant
                i <= a.len(),
                a.len() == b.len(),
                forall|j: int| 0 <= j < i ==> a@[j] == b@[j],
            decreases a.len() - i,
        {
            if a[i] != b[i] {
                return false;
            }
            i += 1;
        }
        assert(a@ =~= b@);
        true
    }

    /// Whether the journal has no entry.
    fn journal_is_empty(&self) -> (r: bool)
        ensures
            r == (self.journal@ == empty_journal()),
    {
        let r = self.journal.installed_files.len() == 0 && self.journal.installed_components.len()
            == 0 && self.journal.created_shortcuts.len() == 0 && !self.journal.created_uninstaller
            && !self.journal.added_to_path;
        proof {
            if r {
                assert(self.journal@.installed_files =~= Seq::empty());
                assert(self.journal@.installed_components =~= Seq::empty());
                assert(self.journal@.created_shortcuts =~= Seq::empty());
            } else {
                assert(self.journal@.installed_files.len() == self.journal.installed_files.len());
                assert(self.journal@.installed_components.len()
                    == self.journal.installed_components.len());
                assert(self.journal@.created_shortcuts.len()
                    == self.journal.created_shortcuts.len());
            }
        }
        r
    }

    /// Tests whether the orchestrator is well formed. Its fields are open
    /// to its caller, who can use this test before a call of a function
    /// that asks for a well-formed orchestrator.
    pub fn check(&self) -> (r: bool)
        ensures
            r == self.wf(),
    {
        let count = match &self.config.components {
            Some(list) => list.len(),
            None => 0,
        };
        if self.component_status.len() != count {
            return false;
        }
        let failed = self.failure.is_some();
        match self.phase {
            Phase::Idle => !failed,
            Phase::Preparing | Phase::BackingUp => self.plan.len() > 0 && !failed,
            Phase::Executing => self.cursor < self.plan.len() && !failed,
            Phase::RollingBack => {
                let undo = self.journal.rollback_plan();
                matches!(self.operation, Operation::Install) && failed && Self::same_steps(
                    &self.undo,
                    &undo,
                ) && self.undo_cursor < self.undo.len()
            },
            Phase::Restoring => matches!(self.operation, Operation::Update) && failed,
            Phase::CleaningUp => {
                if failed {
                    match self.operation {
                        Operation::Install => self.journal_is_empty(),
                        Operation::Update => true,
                        _ => false,
                    }
                } else {
                    true
                }
            },
            Phase::Completed => !failed && self.journal_is_empty(),
            Phase::RolledBack => matches!(self.operation, Operation::Install) && failed
                && self.journal_is_empty(),
            Phase::Restored => matches!(self.operation, Operation::Update) && failed,
            Phase::Failed => failed,
        }
    }

    /// The failure of the step `a` with the cause `message`.
    pub fn failure(a: Action, message: String) -> (r: InstallError)
        ensures
            r@ == failure_of(a, message@),
    {
        let kind = match a {
            Action::RunScript { .. } | Action::InstallDependency { .. } | Action::RunCommand {
                ..
            } => ErrorKind::CommandExecution,
            Action::CheckSystemRequirements => ErrorKind::SystemRequirement,
            Action::RunHooks { .. } => ErrorKind::PluginLoad,
            Action::Backup | Action::Restore => ErrorKind::BackupRestore,
            _ => ErrorKind::Io,
        };
        InstallError { kind, message }
    }

    /// Records that the component at `index` was installed completely.
    fn record_component_at(&mut self, index: usize)
        ensures
            final(self).journal@ == succeeded(
                old(self).journal@,
                Action::InstallComponent { index },
                old(self)@.names,
            ),
            final(self).same_setup(old(self)),
            final(self).component_status == old(self).component_status,
            final(self).operation == old(self).operation,
            final(self).phase == old(self).phase,
            final(self).plan == old(self).plan,
            final(self).cursor == old(self).cursor,
            final(self).undo == old(self).undo,
            final(self).undo_cursor == old(self).undo_cursor,
            final(self).failure == old(self).failure,
            final(self).secondary_ok == old(self).secondary_ok,
            final(self).order == old(self).order,
            final(self).unresolved == old(self).unresolved,
            final(self).backup_name == old(self).backup_name,
    {
        match &self.config.components {
            Some(list) => {
                if index < list.len() {
                    self.journal.record_component(&list[index].name);
                }
            },
            None => {},
        }
    }

    /// Takes the result of the step that was performed, and gives the step
    /// to perform next. After [`Action::Finish`] nothing is left to do.
    pub fn advance(&mut self, result: StepResult) -> (action: Action)
        requires
            old(self).wf(),
        ensures
            final(self).wf(),
            (final(self)@, action) == spec_advance(old(self)@, result@),
            final(self).same_setup(old(self)),
            final(self).order == old(self).order,
            final(self).unresolved == old(self).unresolved,
            final(self).backup_name == old(self).backup_name,
    {
        let ghost before = self@;
        let ghost r = result@;
        proof {
            lemma_advance_keeps_wf(before, r);
        }
        match self.phase {
            Phase::BackingUp => {
                match result.error {
                    None => {
                        let first = self.plan[0];
                        self.mark(first, ComponentStatus::Installing);
                        self.phase = Phase::Executing;
                        self.cursor = 0;
                        first
                    },
                    Some(message) => {
                        self.failure = Some(Self::failure(Action::Backup, message));
                        self.phase = Phase::Failed;
                        Action::Finish { outcome: Outcome::Failed }
                    },
                }
            },
            Phase::Executing => {
                let current = self.plan[self.cursor];
                match current {
                    Action::InstallComponent { .. } | Action::CopyPayload | Action::RunHooks {
                        ..
                    } => {
                        self.journal.record_files(&result.created);
                    },
                    Action::CreateDesktopShortcut | Action::CreateStartMenuShortcut => {
                        self.journal.record_shortcuts(&result.created);
                    },
                    _ => {},
                }
                assert(self.journal@ == recorded(before.journal, current, r.created));
                match result.error {
                    None => {
                        match current {
                            Action::InstallComponent { index } => {
                                self.record_component_at(index);
                            },
                            Action::AddToPath => {
                                self.journal.added_to_path = true;
                            },
                            Action::CreateUninstaller => {
                                self.journal.created_uninstaller = true;
                            },
                            _ => {},
                        }
                        self.mark(current, ComponentStatus::Installed);
                        assert(self.cursor == before.cursor && self.plan@ == before.plan);
                        assert(self.cursor < self.plan.len());
                        self.cursor = self.cursor + 1;
                        if self.cursor < self.plan.len() {
                            let next = self.plan[self.cursor];
                            self.mark(next, ComponentStatus::Installing);
                            next
                        } else {
                            match self.operation {
                                Operation::Install | Operation::Update => {
                                    self.phase = Phase::CleaningUp;
                                    Action::CleanupTemp
                                },
                                _ => {
                                    self.journal.clear();
                                    self.phase = Phase::Completed;
                                    Action::Finish { outcome: Outcome::Completed }
                                },
                            }
                        }
                    },
                    Some(message) => {
                        self.mark(current, ComponentStatus::Broken);
                        self.failure = Some(Self::failure(current, message));
                        match self.operation {
                            Operation::Install => {
                                self.undo = self.journal.rollback_plan();
                                self.undo_cursor = 0;
                                self.secondary_ok = true;
                                self.phase = Phase::RollingBack;
                                self.undo[0]
                            },
                            Operation::Update => {
                                self.phase = Phase::Restoring;
                                Action::Restore
                            },
                            _ => {
                                self.phase = Phase::Failed;
                                Action::Finish { outcome: Outcome::Failed }
                            },
                        }
                    },
                }
            },
            Phase::RollingBack => {
                self.secondary_ok = self.secondary_ok && result.error.is_none();
                assert(self.undo_cursor < self.undo.len());
                self.undo_cursor = self.undo_cursor + 1;
                if self.undo_cursor < self.undo.len() {
                    self.undo[self.undo_cursor]
                } else {
                    self.journal.clear();
                    self.phase = Phase::CleaningUp;
                    Action::CleanupTemp
                }
            },
            Phase::Restoring => {
                self.secondary_ok = result.error.is_none();
                self.phase = Phase::CleaningUp;
                Action::CleanupTemp
            },
            Phase::CleaningUp => {
                if self.failure.is_none() {
                    self.journal.clear();
                    self.phase = Phase::Completed;
                } else {
                    self.phase = match self.operation {
                        Operation::Install => Phase::RolledBack,
                        Operation::Update => Phase::Restored,
                        _ => Phase::Failed,
                    };
                }
                Action::Finish { outcome: self.outcome() }
            },
            _ => Action::Finish { outcome: self.outcome() },
        }
    }
}

/// Every transition leads from a state of the orchestrator to a state of
/// the orchestrator.
pub proof fn lemma_advance_keeps_wf(s: InstallerModel, r: ResultModel)
    requires
        model_wf(s),
    ensures
        model_wf(spec_advance(s, r).0),
        spec_advance(s, r).0.names == s.names,
        spec_advance(s, r).0.operation == s.operation,
{
    lemma_rollback_ends_with_directory(
        recorded(s.journal, s.plan[s.cursor], r.created),
    );
}

proof fn lemma_pipeline_is_not_empty(i: PlanInputs, update: bool)
    ensures
        pipeline(i, update).len() > 0,
{
    let head = step_if(i.plugins, Action::RunHooks { point: HookPoint::PreInstall }) + step_if(
        i.pre_install_script,
        Action::RunScript { script: Script::PreInstall },
    );
    let checked = head + seq![Action::CheckSystemRequirements];
    assert(checked.len() == head.len() + 1);
    assert(steps_before_components(i, update).len() >= checked.len());
}

proof fn lemma_uninstall_is_not_empty(i: PlanInputs)
    ensures
        uninstall_steps(i).len() > 0,
{
    let head = step_if(i.plugins, Action::RunHooks { point: HookPoint::PreUninstall }) + step_if(
        i.pre_uninstall_script,
        Action::RunScript { script: Script::PreUninstall },
    );
    let body = head + seq![
        Action::RemoveShortcuts,
        Action::RemoveFromPath,
        Action::RemoveDependencies,
        Action::RemoveUninstaller,
        Action::DeleteInstallDir,
    ];
    assert(body.len() == head.len() + 5);
    assert(uninstall_steps(i).len() >= body.len());
}

proof fn lemma_repair_is_not_empty(i: PlanInputs)
    ensures
        repair_steps(i).len() > 0,
{
    let head = step_if(i.plugins, Action::RunHooks { point: HookPoint::PreRepair });
    let body = head + seq![Action::VerifyInstallDir, Action::CopyPayload];
    assert(body.len() == head.len() + 2);
    assert(repair_steps(i).len() >= body.len());
}

/// Every plan has a first step.
pub proof fn lemma_plans_are_not_empty(operation: Operation, i: PlanInputs)
    ensures
        plan_of(operation, i).len() > 0,
{
    match operation {
        Operation::Install => lemma_pipeline_is_not_empty(i, false),
        Operation::Update => lemma_pipeline_is_not_empty(i, true),
        Operation::Uninstall => lemma_uninstall_is_not_empty(i),
        Operation::Repair => lemma_repair_is_not_empty(i),
    }
}

/// The run of the orchestrator from `s` over the results of the steps that
/// it hands out: the state at the end, and the steps that it handed out.
pub open spec fn run(s: InstallerModel, results: Seq<ResultModel>) -> (InstallerModel, Seq<Action>)
    decreases results.len(),
{
    if results.len() == 0 {
        (s, Seq::empty())
    } else {
        let (next, action) = spec_advance(s, results[0]);
        let (end, actions) = run(next, results.skip(1));
        (end, seq![action] + actions)
    }
}

/// Whether every one of the steps succeeded.
pub open spec fn all_succeeded(results: Seq<ResultModel>) -> bool {
    forall|i: int| 0 <= i < results.len() ==> (#[trigger] results[i]).error is None
}

/// The end of a run: the cleanup and the outcome.
pub open spec fn ending(outcome: Outcome) -> Seq<Action> {
    seq![Action::CleanupTemp, Action::Finish { outcome }]
}

proof fn lemma_run_one(s: InstallerModel, results: Seq<ResultModel>)
    requires
        results.len() == 1,
    ensures
        run(s, results) == (spec_advance(s, results[0]).0, seq![spec_advance(s, results[0]).1]),
{
    let (next, action) = spec_advance(s, results[0]);
    assert(run(next, results.skip(1)) == (next, Seq::<Action>::empty()));
    assert(seq![action] + Seq::<Action>::empty() =~= seq![action]);
}

proof fn lemma_rollback_runs(s: InstallerModel, results: Seq<ResultModel>)
    requires
        model_wf(s),
        s.phase is RollingBack,
        results.len() == s.undo.len() - s.undo_cursor + 1,
    ensures
        ({
            let (end, actions) = run(s, results);
            &&& end.phase is RolledBack
            &&& end.failure == s.failure
            &&& end.journal == empty_journal()
            &&& end.secondary_ok == (s.secondary_ok && all_succeeded(results.drop_last()))
            &&& actions == s.undo.skip(s.undo_cursor + 1) + ending(
                Outcome::RolledBack { clean: end.secondary_ok },
            )
        }),
    decreases results.len(),
{
    let (next, action) = spec_advance(s, results[0]);
    let rest = results.skip(1);
    lemma_advance_keeps_wf(s, results[0]);
    if s.undo_cursor + 1 < s.undo.len() {
        lemma_rollback_runs(next, rest);
        let (end, actions) = run(next, rest);
        assert(seq![action] + (s.undo.skip(s.undo_cursor + 2) + ending(
            Outcome::RolledBack { clean: end.secondary_ok },
        )) =~= s.undo.skip(s.undo_cursor + 1) + ending(
            Outcome::RolledBack { clean: end.secondary_ok },
        ));
        assert(all_succeeded(results.drop_last()) == (results[0].error is None && all_succeeded(
            rest.drop_last(),
        ))) by {
            if all_succeeded(results.drop_last()) {
                assert(results.drop_last()[0].error is None);
                assert forall|i: int| 0 <= i < rest.drop_last().len() implies (
                #[trigger] rest.drop_last()[i]).error is None by {
                    assert(results.drop_last()[i + 1].error is None);
                }
            }
            if results[0].error is None && all_succeeded(rest.drop_last()) {
                assert forall|i: int| 0 <= i < results.drop_last().len() implies (
                #[trigger] results.drop_last()[i]).error is None by {
                    if i > 0 {
                        assert(rest.drop_last()[i - 1].error is None);
                    }
                }
            }
        }
    } else {
        lemma_run_one(next, rest);
        assert(results.drop_last() =~= seq![results[0]]);
        assert(all_succeeded(results.drop_last()) == (results[0].error is None)) by {
            if results[0].error is None {
                assert forall|i: int| 0 <= i < results.drop_last().len() implies (
                #[trigger] results.drop_last()[i]).error is None by {}
            } else {
                assert(results.drop_last()[0].error is Some);
            }
        }
        let end = spec_advance(next, rest[0]).0;
        assert(seq![action] + seq![spec_advance(next, rest[0]).1] =~= s.undo.skip(
            s.undo_cursor + 1,
        ) + ending(Outcome::RolledBack { clean: end.secondary_ok }));
    }
}

/// A failed install is rolled back. When a step of an install fails, the
/// steps that follow are the rollback of the journal as it stands with
/// what the failed step created, then the cleanup, then the end. They
/// follow whatever the steps of the rollback report. At the end the
/// journal is empty, and the failure of the run is the failure of the step
/// that failed first: no failure of the rollback takes its place.
pub proof fn lemma_failed_install_is_rolled_back(
    s: InstallerModel,
    failed: ResultModel,
    rest: Seq<ResultModel>,
)
    requires
        model_wf(s),
        s.phase is Executing,
        s.operation is Install,
        failed.error is Some,
        rest.len() == rollback_actions(recorded(s.journal, s.plan[s.cursor], failed.created)).len()
            + 1,
    ensures
        ({
            let (next, first) = spec_advance(s, failed);
            let (end, actions) = run(next, rest);
            &&& end.phase is RolledBack
            &&& end.failure == Some(failure_of(s.plan[s.cursor], failed.error->0))
            &&& end.journal == empty_journal()
            &&& end.journal.installed_files.len() == 0
            &&& !end.journal.added_to_path
            &&& !end.journal.created_uninstaller
            &&& seq![first] + actions == rollback_actions(
                recorded(s.journal, s.plan[s.cursor], failed.created),
            ) + ending(Outcome::RolledBack { clean: all_succeeded(rest.drop_last()) })
        }),
{
    let (next, first) = spec_advance(s, failed);
    let undo = rollback_actions(recorded(s.journal, s.plan[s.cursor], failed.created));
    lemma_rollback_ends_with_directory(
        recorded(s.journal, s.plan[s.cursor], failed.created),
    );
    lemma_advance_keeps_wf(s, failed);
    lemma_rollback_runs(next, rest);
    let (end, actions) = run(next, rest);
    assert(seq![first] + (undo.skip(1) + ending(Outcome::RolledBack { clean: end.secondary_ok }))
        =~= undo + ending(Outcome::RolledBack { clean: end.secondary_ok }));
}

/// A failed update is restored from its backup. When a step of an update
/// fails, the steps that follow are the restore, the cleanup and the end,
/// whatever the restore reports; the outcome says whether the restore
/// succeeded, and the failure of the run is the failure of the step that
/// failed first.
pub proof fn lemma_failed_update_is_restored(
    s: InstallerModel,
    failed: ResultModel,
    restore: ResultModel,
    cleanup: ResultModel,
)
    requires
        model_wf(s),
        s.phase is Executing,
        s.operation is Update,
        failed.error is Some,
    ensures
        ({
            let (next, first) = spec_advance(s, failed);
            let (end, actions) = run(next, seq![restore, cleanup]);
            &&& end.phase is Restored
            &&& end.failure == Some(failure_of(s.plan[s.cursor], failed.error->0))
            &&& seq![first] + actions == seq![Action::Restore] + ending(
                Outcome::Restored { restored: restore.error is None },
            )
        }),
{
    let (next, first) = spec_advance(s, failed);
    let results = seq![restore, cleanup];
    let (mid, second) = spec_advance(next, results[0]);
    assert(results.skip(1) =~= seq![cleanup]);
    lemma_run_one(mid, results.skip(1));
    let (end, actions) = run(next, results);
    assert(seq![first] + actions =~= seq![Action::Restore] + ending(
        Outcome::Restored { restored: restore.error is None },
    ));
}

/// The steps that end a run of `operation` whose steps all succeeded.
pub open spec fn success_ending(operation: Operation) -> Seq<Action> {
    if needs_order(operation) {
        ending(Outcome::Completed)
    } else {
        seq![Action::Finish { outcome: Outcome::Completed }]
    }
}

/// A run whose steps all succeed performs its plan in order, and is
/// completed: from any step of the plan, the steps that follow are the
/// rest of the plan and then the end of the run.
pub proof fn lemma_successful_run_completes(s: InstallerModel, results: Seq<ResultModel>)
    requires
        model_wf(s),
        s.phase is Executing,
        all_succeeded(results),
        results.len() == s.plan.len() - s.cursor + success_ending(s.operation).len() - 1,
    ensures
        ({
            let (end, actions) = run(s, results);
            &&& end.phase is Completed
            &&& end.failure is None
            &&& actions == s.plan.skip(s.cursor + 1) + success_ending(s.operation)
        }),
    decreases results.len(),
{
    let (next, action) = spec_advance(s, results[0]);
    let rest = results.skip(1);
    lemma_advance_keeps_wf(s, results[0]);
    assert(results[0].error is None);
    assert forall|i: int| 0 <= i < rest.len() implies (#[trigger] rest[i]).error is None by {
        assert(results[i + 1].error is None);
    }
    if s.cursor + 1 < s.plan.len() {
        lemma_successful_run_completes(next, rest);
        assert(seq![action] + (s.plan.skip(s.cursor + 2) + success_ending(s.operation))
            =~= s.plan.skip(s.cursor + 1) + success_ending(s.operation));
    } else if needs_order(s.operation) {
        lemma_run_one(next, rest);
        assert(seq![action] + seq![spec_advance(next, rest[0]).1] =~= s.plan.skip(s.cursor + 1)
            + success_ending(s.operation));
    } else {
        assert(run(next, rest) == (next, Seq::<Action>::empty()));
        assert(seq![action] + Seq::<Action>::empty() =~= s.plan.skip(s.cursor + 1) + success_ending(
            s.operation,
        ));
    }
}

/// A run that has ended in a rollback has left nothing in its journal: no
/// file, no entry in the search path and no uninstaller of the run remain.
pub proof fn lemma_rolled_back_is_clean(s: InstallerModel)
    requires
        model_wf(s),
        s.phase is RolledBack,
    ensures
        s.journal.installed_files.len() == 0,
        !s.journal.added_to_path,
        !s.journal.created_uninstaller,
        s.failure is Some,
{
}

/// The failure of a run is the first one: once a run has failed, no later
/// step, and no failure of the rollback or the restore, takes its place.
pub proof fn lemma_failure_is_kept(s: InstallerModel, r: ResultModel)
    requires
        model_wf(s),
        s.failure is Some,
    ensures
        spec_advance(s, r).0.failure == s.failure,
{
}

/// `a` is the beginning of `b`.
pub open spec fn begins(a: Seq<Seq<char>>, b: Seq<Seq<char>>) -> bool {
    a.len() <= b.len() && b.take(a.len() as int) == a
}

/// While the plan is performed the journal only grows: what it lists stays
/// listed, in its place, and what it has noted stays noted, until the run
/// is completed.
pub proof fn lemma_journal_only_grows(s: InstallerModel, r: ResultModel)
    requires
        model_wf(s),
        s.phase is Executing,
        !(spec_advance(s, r).0.phase is Completed),
    ensures
        ({
            let after = spec_advance(s, r).0.journal;
            &&& begins(s.journal.installed_files, after.installed_files)
            &&& begins(s.journal.installed_components, after.installed_components)
            &&& begins(s.journal.created_shortcuts, after.created_shortcuts)
            &&& s.journal.added_to_path ==> after.added_to_path
            &&& s.journal.created_uninstaller ==> after.created_uninstaller
        }),
{
    let after = spec_advance(s, r).0.journal;
    assert(after.installed_files.take(s.journal.installed_files.len() as int)
        =~= s.journal.installed_files);
    assert(after.installed_components.take(s.journal.installed_components.len() as int)
        =~= s.journal.installed_components);
    assert(after.created_shortcuts.take(s.journal.created_shortcuts.len() as int)
        =~= s.journal.created_shortcuts);
}

/// In the plan of an install or an update every component is installed
/// after the components that it depends on: each dependency of the
/// component at position `p` of the order stands at an earlier position.
pub proof fn lemma_components_follow_dependencies(
    g: Seq<NodeModel>,
    order: Seq<usize>,
    p: int,
    k: int,
)
    requires
        distinct_names(g),
        is_component_order(g, order),
        0 <= p < order.len(),
        0 <= k < g[order[p] as int].depends_on.len(),
    ensures
        exists|q: int|
            0 <= q < p && g[(#[trigger] order[q]) as int].name == g[order[p] as int].depends_on[k],
{
    let names = ordered_names(g, order);
    lemma_dependencies_first(g, names, p, order[p] as int, k);
    let q = choose|q: int| 0 <= q < p && names[q] == g[order[p] as int].depends_on[k];
    assert(g[order[q] as int].name == names[q]);
}

} // verus!
