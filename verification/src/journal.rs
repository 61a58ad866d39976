//! The rollback journal: what a run has changed on the machine, and the
//! steps that take it back.

use crate::text::append_strings;
use vstd::prelude::*;

verus! {

/// A point in the life of the product at which plugins are called.
#[derive(Debug, Clone, Copy, PartialEq, Eq, Structural)]
pub enum HookPoint {
    PreInstall,
    PostInstall,
    PreUninstall,
    PostUninstall,
    PreRepair,
    PostRepair,
}

/// One of the scripts that the install options may name.
#[derive(Debug, Clone, Copy, PartialEq, Eq, Structural)]
pub enum Script {
    PreInstall,
    PostInstall,
    PreUninstall,
    PostUninstall,
}

/// What a comparison of the installed version with the new one found.
#[derive(Debug, Clone, Copy, PartialEq, Eq, Structural)]
pub enum UpdateStatus {
    /// Nothing is installed.
    NotInstalled,
    /// The installed version is older than the new one.
    UpdateAvailable,
    /// The installed version is the new one.
    UpToDate,
    /// The installed version is newer than the new one.
    NewerInstalled,
}

/// How a run ended.
#[derive(Debug, Clone, Copy, PartialEq, Eq, Structural)]
pub enum Outcome {
    /// The run has not ended.
    Pending,
    /// Every step succeeded.
    Completed,
    /// An update was asked for and none is due; nothing was changed.
    UpToDate,
    /// Versions were compared and nothing was changed.
    Checked { status: UpdateStatus },
    /// An install failed and its changes were taken back; `clean` says
    /// whether every step of the rollback succeeded.
    RolledBack { clean: bool },
    /// An update failed and the backup was put back; `restored` says
    /// whether that succeeded. When it did not, the install directory is in
    /// an unknown state.
    Restored { restored: bool },
    /// The run failed and nothing was taken back.
    Failed,
}

/// One step that the caller performs for the orchestrator. Where a step has
/// an `index`, it is a position in the list that the step is about: the
/// declared dependencies, components or commands, or the journal's files.
#[derive(Debug, Clone, Copy, PartialEq, Eq, Structural)]
pub enum Action {
    /// Call the hook of every loaded plugin, in load order.
    RunHooks { point: HookPoint },
    /// Run a script of the install options and wait for it.
    RunScript { script: Script },
    /// Ask the platform whether the machine meets the requirements.
    CheckSystemRequirements,
    /// Create the install directory unless it exists.
    CreateInstallDir,
    /// Fail unless the install directory exists.
    VerifyInstallDir,
    /// Run the install command of a dependency.
    InstallDependency { index: usize },
    /// Copy the files of a component into the install directory.
    InstallComponent { index: usize },
    /// Copy the product's payload into the install directory.
    CopyPayload,
    CreateDesktopShortcut,
    CreateStartMenuShortcut,
    AddToPath,
    CreateService,
    CreateUninstaller,
    /// Run a configured command with its retry policy.
    RunCommand { index: usize },
    /// Write the new version to the version marker.
    SaveVersion,
    RemoveFromPath,
    RemoveUninstaller,
    RemoveShortcuts,
    /// Delete a file that the journal lists.
    DeleteFile { index: usize },
    /// Delete the install directory and all in it, if it exists.
    DeleteInstallDir,
    /// Remove what the dependencies installed.
    RemoveDependencies,
    /// Copy the install directory to the backup location.
    Backup,
    /// Replace the install directory by the backup.
    Restore,
    /// Delete the temporary working files.
    CleanupTemp,
    /// Nothing is left to do.
    Finish { outcome: Outcome },
}

/// The record of what a run has changed.
#[derive(Debug)]
pub struct RollbackJournal {
    /// Paths of the files that were written, in the order of writing.
    pub installed_files: Vec<String>,
    /// Names of the components that were installed completely.
    pub installed_components: Vec<String>,
    /// Whether the uninstaller was registered.
    pub created_uninstaller: bool,
    /// Whether the install directory was added to the search path.
    pub added_to_path: bool,
    /// Paths of the shortcuts that were created.
    pub created_shortcuts: Vec<String>,
}

/// The mathematical value of a [`RollbackJournal`].
pub struct JournalModel {
    pub installed_files: Seq<Seq<char>>,
    pub installed_components: Seq<Seq<char>>,
    pub created_uninstaller: bool,
    pub added_to_path: bool,
    pub created_shortcuts: Seq<Seq<char>>,
}

impl View for RollbackJournal {
    type V = JournalModel;

    open spec fn view(&self) -> JournalModel {
        JournalModel {
            installed_files: self.installed_files.deep_view(),
            installed_components: self.installed_components.deep_view(),
            created_uninstaller: self.created_uninstaller,
            added_to_path: self.added_to_path,
            created_shortcuts: self.created_shortcuts.deep_view(),
        }
    }
}

/// The journal of a run that has changed nothing.
pub open spec fn empty_journal() -> JournalModel {
    JournalModel {
        installed_files: Seq::empty(),
        installed_components: Seq::empty(),
        created_uninstaller: false,
        added_to_path: false,
        created_shortcuts: Seq::empty(),
    }
}

/// One action when `wanted`, none otherwise.
pub open spec fn step_if(wanted: bool, action: Action) -> Seq<Action> {
    if wanted {
        seq![action]
    } else {
        Seq::empty()
    }
}

/// The deletions of the first `count` journal files, last written first.
pub open spec fn file_deletions(count: nat) -> Seq<Action> {
    Seq::new(count, |p: int| Action::DeleteFile { index: (count - 1 - p) as usize })
}

/// The steps that take back what the journal records: the search path
/// entry and the uninstaller if they were made, the shortcuts if any were
/// created, every written file from the last to the first, and at the end
/// the install directory.
pub open spec fn rollback_actions(j: JournalModel) -> Seq<Action> {
    step_if(j.added_to_path, Action::RemoveFromPath) + step_if(
        j.created_uninstaller,
        Action::RemoveUninstaller,
    ) + step_if(j.created_shortcuts.len() > 0, Action::RemoveShortcuts) + file_deletions(
        j.installed_files.len(),
    ) + seq![Action::DeleteInstallDir]
}

impl RollbackJournal {
    /// A journal without entries.
    pub fn new() -> (j: RollbackJournal)
        ensures
            j@ == empty_journal(),
    {
        let j = RollbackJournal {
            installed_files: Vec::new(),
            installed_components: Vec::new(),
            created_uninstaller: false,
            added_to_path: false,
            created_shortcuts: Vec::new(),
        };
        assert(j@.installed_files =~= Seq::empty());
        assert(j@.installed_components =~= Seq::empty());
        assert(j@.created_shortcuts =~= Seq::empty());
        j
    }

    /// Records written files, after those recorded before.
    pub fn record_files(&mut self, paths: &Vec<String>)
        ensures
            final(self)@ == (JournalModel {
                installed_files: old(self)@.installed_files + paths.deep_view(),
                ..old(self)@
            }),
    {
        append_strings(&mut self.installed_files, paths);
    }

    /// Records created shortcuts, after those recorded before.
    pub fn record_shortcuts(&mut self, paths: &Vec<String>)
        ensures
            final(self)@ == (JournalModel {
                created_shortcuts: old(self)@.created_shortcuts + paths.deep_view(),
                ..old(self)@
            }),
    {
        append_strings(&mut self.created_shortcuts, paths);
    }

    /// Records that a component was installed completely.
    pub fn record_component(&mut self, name: &String)
        ensures
            final(self)@ == (JournalModel {
                installed_components: old(self)@.installed_components.push(name@),
                ..old(self)@
            }),
    {
        let ghost before = self.installed_components.deep_view();
        self.installed_components.push(name.clone());
        assert(self.installed_components.deep_view() =~= before.push(name@));
    }

    /// Forgets every entry: what the journal recorded has been taken back.
    pub fn clear(&mut self)
        ensures
            final(self)@ == empty_journal(),
    {
        self.installed_files = Vec::new();
        self.installed_components = Vec::new();
        self.created_shortcuts = Vec::new();
        self.created_uninstaller = false;
        self.added_to_path = false;
        assert(self@.installed_files =~= Seq::empty());
        assert(self@.installed_components =~= Seq::empty());
        assert(self@.created_shortcuts =~= Seq::empty());
    }

    /// The steps that take back what the journal records.
    pub fn rollback_plan(&self) -> (plan: Vec<Action>)
        ensures
            plan@ == rollback_actions(self@),
    {
        let mut plan: Vec<Action> = Vec::new();
        if self.added_to_path {
            plan.push(Action::RemoveFromPath);
        }
        if self.created_uninstaller {
            plan.push(Action::RemoveUninstaller);
        }
        if self.created_shortcuts.len() > 0 {
            plan.push(Action::RemoveShortcuts);
        }
        let ghost head = plan@;
        let count = self.installed_files.len();
        let mut left: usize = count;
        while left > 0
            invariant
                left <= count,
                plan@ == head + file_deletions(count as nat).take(count - left),
            decreases left,
        {
            left -= 1;
            plan.push(Action::DeleteFile { index: left });
            assert(plan@ =~= head + file_deletions(count as nat).take(count - left));
        }
        assert(file_deletions(count as nat).take(count as int) =~= file_deletions(count as nat));
        plan.push(Action::DeleteInstallDir);
        assert(plan@ =~= rollback_actions(self@));
        plan
    }
}

/// Taking back an empty journal leaves one step: the install directory goes.
/// So a second rollback after a first repeats nothing of it.
pub proof fn lemma_rollback_of_empty()
    ensures
        rollback_actions(empty_journal()) == seq![Action::DeleteInstallDir],
{
    assert(rollback_actions(empty_journal()) =~= seq![Action::DeleteInstallDir]);
}

/// A rollback is never empty and always ends with the install directory.
pub proof fn lemma_rollback_ends_with_directory(j: JournalModel)
    ensures
        rollback_actions(j).len() > 0,
        rollback_actions(j).last() == Action::DeleteInstallDir,
{
}

} // verus!
