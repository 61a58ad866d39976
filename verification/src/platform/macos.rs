//! The macOS adapter: what it writes, as text.

use crate::platform::{
    profile_with, profile_without, spec_profile_with, spec_profile_without,
};
use crate::platform::PlatformError;
use vstd::prelude::*;
use vstd::string::*;

verus! {

/// The text of the script that uninstalls the product.
pub open spec fn spec_uninstall_script(
    name: Seq<char>,
    version: Seq<char>,
    installer: Seq<char>,
) -> Seq<char> {
    "#!/bin/bash\n# SeeSea Uninstaller for macOS\n\necho \"Uninstalling "@ + name + "-"@ + version
        + "...\"\n\n# run the uninstall command of the installer\n\""@ + installer
        + "\" uninstall\n\necho \"Uninstallation completed successfully!\"\n"@
}

/// The adapter for macOS.
#[derive(Debug)]
pub struct MacOSImpl {
    /// Where the uninstall script is written.
    pub uninstall_script_path: String,
}

impl MacOSImpl {
    /// The adapter with its usual place.
    pub fn new() -> (r: Result<MacOSImpl, PlatformError>)
        ensures
            r matches Ok(adapter) && adapter.uninstall_script_path@
                == "/usr/local/bin/seesea-uninstall"@,
    {
        Ok(MacOSImpl { uninstall_script_path: String::from_str("/usr/local/bin/seesea-uninstall") })
    }

    /// The directory in which applications are installed for all users.
    pub fn get_applications_dir(&self) -> (r: String)
        ensures
            r@ == "/Applications"@,
    {
        String::from_str("/Applications")
    }

    /// The file name of the shortcut of the product `name`: the name of its
    /// application bundle.
    pub fn shortcut_file_name(&self, name: &str) -> (r: String)
        ensures
            r@ == name@ + ".app"@,
    {
        let mut file = name.to_owned();
        file.append(".app");
        file
    }

    /// The text of the script that uninstalls the product by calling the
    /// installer at `installer`.
    pub fn uninstall_script(&self, name: &str, version: &str, installer: &str) -> (r: String)
        ensures
            r@ == spec_uninstall_script(name@, version@, installer@),
    {
        let mut text = String::from_str(
            "#!/bin/bash\n# SeeSea Uninstaller for macOS\n\necho \"Uninstalling ",
        );
        text.append(name);
        text.append("-");
        text.append(version);
        text.append("...\"\n\n# run the uninstall command of the installer\n\"");
        text.append(installer);
        text.append("\" uninstall\n\necho \"Uninstallation completed successfully!\"\n");
        text
    }

    /// The shell profile with `install_dir` put on the search path; `None`
    /// when the profile stays as it is.
    pub fn add_to_path(&self, install_dir: &str, profile: &str) -> (r: Option<String>)
        ensures
            match r {
                Some(text) => spec_profile_with(profile@, install_dir@) == Some(text@),
                None => spec_profile_with(profile@, install_dir@) is None,
            },
    {
        profile_with(profile, install_dir)
    }

    /// The shell profile with `install_dir` taken off the search path;
    /// `None` when the profile stays as it is.
    pub fn remove_from_path(&self, install_dir: &str, profile: &str) -> (r: Option<String>)
        ensures
            match r {
                Some(text) => spec_profile_without(profile@, install_dir@) == Some(text@),
                None => spec_profile_without(profile@, install_dir@) is None,
            },
    {
        profile_without(profile, install_dir)
    }

    /// The name of the shell profile that takes the search path: that of
    /// zsh when it exists, and that of bash otherwise.
    pub fn profile_for_adding(&self, zsh_profile_exists: bool) -> (r: &'static str)
        ensures
            zsh_profile_exists ==> r@ == ".zshrc"@,
            !zsh_profile_exists ==> r@ == ".bashrc"@,
    {
        if zsh_profile_exists {
            ".zshrc"
        } else {
            ".bashrc"
        }
    }

    /// The names of the shell profiles from which the search path is taken
    /// back, in order.
    pub fn profiles_for_removal(&self) -> (r: Vec<String>)
        ensures
            r.deep_view() == seq![".zshrc"@, ".bashrc"@, ".profile"@],
    {
        let mut names: Vec<String> = Vec::new();
        names.push(String::from_str(".zshrc"));
        names.push(String::from_str(".bashrc"));
        names.push(String::from_str(".profile"));
        assert(names.deep_view() =~= seq![".zshrc"@, ".bashrc"@, ".profile"@]);
        names
    }
}

} // verus!
