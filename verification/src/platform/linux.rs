//! The Linux adapter: what it writes, as text.

use crate::platform::{
    profile_with, profile_without, spec_profile_with, spec_profile_without,
};
use crate::text::{occurs_in, str_contains};
use crate::platform::PlatformError;
use vstd::prelude::*;
use vstd::string::*;

verus! {

/// The name of the profile of the shell `shell`: that of zsh when the
/// shell's path names zsh and not bash, and that of bash otherwise.
pub open spec fn spec_shell_profile(shell: Seq<char>) -> Seq<char> {
    if occurs_in(shell, "bash"@) {
        ".bashrc"@
    } else if occurs_in(shell, "zsh"@) {
        ".zshrc"@
    } else {
        ".bashrc"@
    }
}

/// The text of a desktop entry for the product.
pub open spec fn spec_desktop_entry(
    name: Seq<char>,
    description: Seq<char>,
    target: Seq<char>,
) -> Seq<char> {
    "[Desktop Entry]\nName="@ + name + "\nComment="@ + description + "\nExec="@ + target
        + "\nIcon=application-default-icon\nTerminal=false\nType=Application\nCategories=Utility;Application;\nStartupNotify=true\n"@
}

/// The text of the script that uninstalls the product.
pub open spec fn spec_uninstall_script(
    name: Seq<char>,
    version: Seq<char>,
    installer: Seq<char>,
) -> Seq<char> {
    "#!/bin/bash\n# SeeSea Uninstaller\n\necho \"Uninstalling "@ + name + "-"@ + version
        + "...\"\n\n# run the uninstall command of the installer\n\""@ + installer
        + "\" uninstall\n\necho \"Uninstallation completed successfully!\"\n"@
}

/// The adapter for Linux.
#[derive(Debug)]
pub struct LinuxImpl {
    /// Where the uninstall script is written.
    pub uninstall_script_path: String,
}

impl LinuxImpl {
    /// The adapter with its usual place.
    pub fn new() -> (r: Result<LinuxImpl, PlatformError>)
        ensures
            r matches Ok(adapter) && adapter.uninstall_script_path@
                == "/usr/local/bin/seesea-uninstall"@,
    {
        Ok(LinuxImpl { uninstall_script_path: String::from_str("/usr/local/bin/seesea-uninstall") })
    }

    /// The directory of the application menu that all users share.
    pub fn get_system_app_menu_dir(&self) -> (r: String)
        ensures
            r@ == "/usr/share/applications"@,
    {
        String::from_str("/usr/share/applications")
    }

    /// The name of the profile of the shell with the path `shell`.
    pub fn shell_profile(&self, shell: &str) -> (r: &'static str)
        ensures
            r@ == spec_shell_profile(shell@),
    {
        if str_contains(shell, "bash") {
            ".bashrc"
        } else if str_contains(shell, "zsh") {
            ".zshrc"
        } else {
            ".bashrc"
        }
    }

    /// The file name of the shortcut of the product `name`.
    pub fn shortcut_file_name(&self, name: &str) -> (r: String)
        ensures
            r@ == name@ + ".desktop"@,
    {
        let mut file = name.to_owned();
        file.append(".desktop");
        file
    }

    /// The text of a desktop entry that starts `target`.
    pub fn desktop_entry(&self, name: &str, description: &str, target: &str) -> (r: String)
        ensures
            r@ == spec_desktop_entry(name@, description@, target@),
    {
        let mut text = String::from_str("[Desktop Entry]\nName=");
        text.append(name);
        text.append("\nComment=");
        text.append(description);
        text.append("\nExec=");
        text.append(target);
        text.append(
            "\nIcon=application-default-icon\nTerminal=false\nType=Application\nCategories=Utility;Application;\nStartupNotify=true\n",
        );
        text
    }

    /// The text of the script that uninstalls the product by calling the
    /// installer at `installer`.
    pub fn uninstall_script(&self, name: &str, version: &str, installer: &str) -> (r: String)
        ensures
            r@ == spec_uninstall_script(name@, version@, installer@),
    {
        let mut text = String::from_str(
            "#!/bin/bash\n# SeeSea Uninstaller\n\necho \"Uninstalling ",
        );
        text.append(name);
        text.append("-");
        text.append(version);
        text.append("...\"\n\n# run the uninstall command of the installer\n\"");
        text.append(installer);
        text.append("\" uninstall\n\necho \"Uninstallation completed successfully!\"\n");
        text
    }

    /// The shell profile with `install_dir` put on the search path; `None`
    /// when the profile stays as it is.
    pub fn add_to_path(&self, install_dir: &str, profile: &str) -> (r: Option<String>)
        ensures
            match r {
                Some(text) => spec_profile_with(profile@, install_dir@) == Some(text@),
                None => spec_profile_with(profile@, install_dir@) is None,
            },
    {
        profile_with(profile, install_dir)
    }

    /// The shell profile with `install_dir` taken off the search path;
    /// `None` when the profile stays as it is.
    pub fn remove_from_path(&self, install_dir: &str, profile: &str) -> (r: Option<String>)
        ensures
            match r {
                Some(text) => spec_profile_without(profile@, install_dir@) == Some(text@),
                None => spec_profile_without(profile@, install_dir@) is None,
            },
    {
        profile_without(profile, install_dir)
    }
}

} // verus!
