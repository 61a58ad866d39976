//! The Windows adapter: what it writes, as text.

use crate::text::{chars_of, occurs_in, remove_all, remove_text, str_contains};
use crate::platform::PlatformError;
use vstd::prelude::*;
use vstd::string::*;

verus! {

/// The value of the search path with `install_dir` added at its end, after
/// a semicolon unless the value ends with one; `None` when `install_dir`
/// stands in the value already.
pub open spec fn spec_path_with(path: Seq<char>, install_dir: Seq<char>) -> Option<Seq<char>> {
    if occurs_in(path, install_dir) {
        None
    } else if path.len() > 0 && path.last() == ';' {
        Some(path + install_dir)
    } else {
        Some(path + ";"@ + install_dir)
    }
}

/// The value of the search path without `install_dir`: every occurrence of
/// it is removed, then every occurrence after a semicolon together with
/// the semicolon, then every occurrence again.
pub open spec fn spec_path_without(path: Seq<char>, install_dir: Seq<char>) -> Seq<char> {
    remove_all(remove_all(remove_all(path, install_dir), ";"@ + install_dir), install_dir)
}

/// The command for PowerShell that creates a shortcut.
pub open spec fn spec_shortcut_command(
    shortcut: Seq<char>,
    target: Seq<char>,
    working_dir: Seq<char>,
) -> Seq<char> {
    "$WshShell = New-Object -comObject WScript.Shell; $Shortcut = $WshShell.CreateShortcut('"@
        + shortcut + "'); $Shortcut.TargetPath = '"@ + target
        + "'; $Shortcut.WorkingDirectory = '"@ + working_dir + "'; $Shortcut.Save()"@
}

/// The adapter for Windows.
#[derive(Debug)]
pub struct WindowsImpl {
    /// The registry key under which uninstallers are registered.
    pub uninstall_reg_path: String,
}

impl WindowsImpl {
    /// The adapter with its usual place.
    pub fn new() -> (r: Result<WindowsImpl, PlatformError>)
        ensures
            r matches Ok(adapter) && adapter.uninstall_reg_path@
                == "SOFTWARE\\Microsoft\\Windows\\CurrentVersion\\Uninstall"@,
    {
        Ok(
            WindowsImpl {
                uninstall_reg_path: String::from_str(
                    "SOFTWARE\\Microsoft\\Windows\\CurrentVersion\\Uninstall",
                ),
            },
        )
    }

    /// The file name of the shortcut of the product `name`.
    pub fn shortcut_file_name(&self, name: &str) -> (r: String)
        ensures
            r@ == name@ + ".lnk"@,
    {
        let mut file = name.to_owned();
        file.append(".lnk");
        file
    }

    /// The registry key under which the uninstaller of `name` is registered.
    pub fn uninstall_key(&self, name: &str) -> (r: String)
        ensures
            r@ == self.uninstall_reg_path@ + "\\"@ + name@,
    {
        let mut key = self.uninstall_reg_path.clone();
        key.append("\\");
        key.append(name);
        key
    }

    /// The command for PowerShell that creates the shortcut `shortcut` to
    /// `target`.
    pub fn shortcut_command(&self, shortcut: &str, target: &str, working_dir: &str) -> (r: String)
        ensures
            r@ == spec_shortcut_command(shortcut@, target@, working_dir@),
    {
        let mut text = String::from_str(
            "$WshShell = New-Object -comObject WScript.Shell; $Shortcut = $WshShell.CreateShortcut('",
        );
        text.append(shortcut);
        text.append("'); $Shortcut.TargetPath = '");
        text.append(target);
        text.append("'; $Shortcut.WorkingDirectory = '");
        text.append(working_dir);
        text.append("'; $Shortcut.Save()");
        text
    }

    /// The value of the search path with `install_dir` added; `None` when
    /// the value stays as it is.
    pub fn add_to_path(&self, install_dir: &str, path: &str) -> (r: Option<String>)
        ensures
            match r {
                Some(text) => spec_path_with(path@, install_dir@) == Some(text@),
                None => spec_path_with(path@, install_dir@) is None,
            },
    {
        if str_contains(path, install_dir) {
            return None;
        }
        let chars = chars_of(path);
        let mut text = path.to_owned();
        if !(chars.len() > 0 && chars[chars.len() - 1] == ';') {
            text.append(";");
        }
        text.append(install_dir);
        Some(text)
    }

    /// The value of the search path with `install_dir` removed.
    pub fn remove_from_path(&self, install_dir: &str, path: &str) -> (r: Option<String>)
        ensures
            r matches Some(text) && text@ == spec_path_without(path@, install_dir@),
    {
        let first = remove_text(path, install_dir);
        let mut after_semicolon = String::from_str(";");
        after_semicolon.append(install_dir);
        let second = remove_text(first.as_str(), after_semicolon.as_str());
        Some(remove_text(second.as_str(), install_dir))
    }
}

} // verus!
