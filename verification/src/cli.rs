//! The command line, as plain values.

use crate::text::same_text;
use vstd::prelude::*;

verus! {

/// What was asked for on the command line.
#[derive(Debug, Clone)]
pub struct Args {
    /// Path of the configuration document.
    pub config: String,
    /// Install directory; the configured default when absent.
    pub install_dir: Option<String>,
    /// Whether debug logging was asked for.
    pub debug: bool,
    /// The command: `install`, `uninstall`, `repair` or `update`.
    pub command: String,
    /// Update only: compare versions and report, change nothing.
    pub check: bool,
    /// Update only: where to keep the backup.
    pub backup_dir: Option<String>,
    /// Update only: perform the update whatever the versions are.
    pub force: bool,
}

/// One of the four commands of the installer.
#[derive(Debug, Clone, Copy, PartialEq, Eq, Structural)]
pub enum Operation {
    Install,
    Uninstall,
    Repair,
    Update,
}

/// The command that `name` denotes.
pub open spec fn spec_operation(name: Seq<char>) -> Option<Operation> {
    if name == "install"@ {
        Some(Operation::Install)
    } else if name == "uninstall"@ {
        Some(Operation::Uninstall)
    } else if name == "repair"@ {
        Some(Operation::Repair)
    } else if name == "update"@ {
        Some(Operation::Update)
    } else {
        None
    }
}

/// Reads a command name; `None` for a name that is no command.
pub fn parse_operation(name: &String) -> (r: Option<Operation>)
    ensures
        r == spec_operation(name@),
{
    if same_text(name.as_str(), "install") {
        Some(Operation::Install)
    } else if same_text(name.as_str(), "uninstall") {
        Some(Operation::Uninstall)
    } else if same_text(name.as_str(), "repair") {
        Some(Operation::Repair)
    } else if same_text(name.as_str(), "update") {
        Some(Operation::Update)
    } else {
        None
    }
}

} // verus!
