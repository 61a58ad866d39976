//! The platform adapters: one per operating system, chosen at run time by
//! the system's tag.

pub mod linux;
pub mod macos;
pub mod windows;

use crate::config::{Config, InstallOptions};
use crate::platform::linux::LinuxImpl;
use crate::platform::macos::MacOSImpl;
use crate::platform::windows::{spec_path_with, spec_path_without, WindowsImpl};
use crate::text::{occurs_in, remove_line, same_text, spec_remove_line, str_contains};
use vstd::string::*;
use vstd::prelude::*;

verus! {

/// Why there is no adapter.
#[derive(Debug, Clone, Copy, PartialEq, Eq, Structural)]
pub enum PlatformError {
    /// The installer does not know the operating system.
    UnsupportedSystem,
}

/// The adapter of the operating system that the installer runs on.
#[derive(Debug)]
pub enum PlatformImpl {
    Windows(WindowsImpl),
    Linux(LinuxImpl),
    MacOS(MacOSImpl),
}

/// The install options that hold on a platform: those that the
/// configuration gives for that platform, and the global ones when it gives
/// none.
pub open spec fn spec_install_options(platform: &PlatformImpl, config: &Config) -> InstallOptions {
    match config.platform {
        None => config.install_options,
        Some(per_platform) => {
            let own = match platform {
                PlatformImpl::Windows(_) => per_platform.windows,
                PlatformImpl::Linux(_) => per_platform.linux,
                PlatformImpl::MacOS(_) => per_platform.macos,
            };
            match own {
                Some(options) => options,
                None => config.install_options,
            }
        },
    }
}

/// The line of a shell profile that puts `install_dir` on the search path.
pub open spec fn spec_profile_line(install_dir: Seq<char>) -> Seq<char> {
    "export PATH=\"$PATH:"@ + install_dir + "\""@
}

/// The line of a shell profile that puts `install_dir` on the search path.
pub fn profile_line(install_dir: &str) -> (r: String)
    ensures
        r@ == spec_profile_line(install_dir@),
{
    let mut line = String::from_str("export PATH=\"$PATH:");
    line.append(install_dir);
    line.append("\"");
    line
}

/// The profile with the line for `install_dir` added at its end; `None`
/// when the profile holds that line already and stays as it is.
pub open spec fn spec_profile_with(profile: Seq<char>, install_dir: Seq<char>) -> Option<
    Seq<char>,
> {
    if occurs_in(profile, spec_profile_line(install_dir)) {
        None
    } else {
        Some(profile + "\n"@ + spec_profile_line(install_dir) + "\n"@)
    }
}

/// The profile without the lines for `install_dir`; `None` when that is
/// the profile as it stands.
pub open spec fn spec_profile_without(profile: Seq<char>, install_dir: Seq<char>) -> Option<
    Seq<char>,
> {
    let cleaned = spec_remove_line(profile, spec_profile_line(install_dir));
    if cleaned == profile {
        None
    } else {
        Some(cleaned)
    }
}

/// Adds the line for `install_dir` to a shell profile.
pub fn profile_with(profile: &str, install_dir: &str) -> (r: Option<String>)
    ensures
        match r {
            Some(text) => spec_profile_with(profile@, install_dir@) == Some(text@),
            None => spec_profile_with(profile@, install_dir@) is None,
        },
{
    let line = profile_line(install_dir);
    if str_contains(profile, line.as_str()) {
        return None;
    }
    let mut text = profile.to_owned();
    text.append("\n");
    text.append(line.as_str());
    text.append("\n");
    Some(text)
}

/// Removes the lines for `install_dir` from a shell profile.
pub fn profile_without(profile: &str, install_dir: &str) -> (r: Option<String>)
    ensures
        match r {
            Some(text) => spec_profile_without(profile@, install_dir@) == Some(text@),
            None => spec_profile_without(profile@, install_dir@) is None,
        },
{
    let line = profile_line(install_dir);
    let cleaned = remove_line(profile, line.as_str());
    if same_text(cleaned.as_str(), profile) {
        None
    } else {
        Some(cleaned)
    }
}

/// The text that a platform keeps the search path in, with `install_dir`
/// added: a shell profile on Linux and macOS, the value of the path on
/// Windows. `None` when it stays as it is.
pub open spec fn spec_add_to_path(
    platform: &PlatformImpl,
    install_dir: Seq<char>,
    current: Seq<char>,
) -> Option<Seq<char>> {
    match platform {
        PlatformImpl::Windows(_) => spec_path_with(current, install_dir),
        _ => spec_profile_with(current, install_dir),
    }
}

/// The text that a platform keeps the search path in, with `install_dir`
/// removed. `None` when it stays as it is.
pub open spec fn spec_remove_from_path(
    platform: &PlatformImpl,
    install_dir: Seq<char>,
    current: Seq<char>,
) -> Option<Seq<char>> {
    match platform {
        PlatformImpl::Windows(_) => Some(
            spec_path_without(current, install_dir),
        ),
        _ => spec_profile_without(current, install_dir),
    }
}

impl PlatformImpl {
    /// The adapter for the operating system with the tag `os`: `windows`,
    /// `linux` or `macos`. Any other tag is an error.
    pub fn new(os: &str) -> (r: Result<PlatformImpl, PlatformError>)
        ensures
            match r {
                Ok(PlatformImpl::Windows(adapter)) => {
                    &&& os@ == "windows"@
                    &&& adapter.uninstall_reg_path@
                        == "SOFTWARE\\Microsoft\\Windows\\CurrentVersion\\Uninstall"@
                },
                Ok(PlatformImpl::Linux(adapter)) => {
                    &&& os@ == "linux"@
                    &&& adapter.uninstall_script_path@ == "/usr/local/bin/seesea-uninstall"@
                },
                Ok(PlatformImpl::MacOS(adapter)) => {
                    &&& os@ == "macos"@
                    &&& adapter.uninstall_script_path@ == "/usr/local/bin/seesea-uninstall"@
                },
                Err(e) => {
                    &&& e == PlatformError::UnsupportedSystem
                    &&& os@ != "windows"@
                    &&& os@ != "linux"@
                    &&& os@ != "macos"@
                },
            },
    {
        proof {
            reveal_strlit("windows");
            reveal_strlit("linux");
            reveal_strlit("macos");
            assert("windows"@.len() == 7 && "linux"@.len() == 5 && "macos"@.len() == 5);
            assert("linux"@[0] == 'l' && "macos"@[0] == 'm');
        }
        if same_text(os, "windows") {
            match WindowsImpl::new() {
                Ok(adapter) => Ok(PlatformImpl::Windows(adapter)),
                Err(e) => Err(e),
            }
        } else if same_text(os, "linux") {
            match LinuxImpl::new() {
                Ok(adapter) => Ok(PlatformImpl::Linux(adapter)),
                Err(e) => Err(e),
            }
        } else if same_text(os, "macos") {
            match MacOSImpl::new() {
                Ok(adapter) => Ok(PlatformImpl::MacOS(adapter)),
                Err(e) => Err(e),
            }
        } else {
            Err(PlatformError::UnsupportedSystem)
        }
    }

    /// The install options that hold on this platform.
    pub fn get_install_options<'a>(&self, config: &'a Config) -> (r: &'a InstallOptions)
        ensures
            *r == spec_install_options(self, config),
    {
        match &config.platform {
            None => &config.install_options,
            Some(per_platform) => {
                let own = match self {
                    PlatformImpl::Windows(_) => &per_platform.windows,
                    PlatformImpl::Linux(_) => &per_platform.linux,
                    PlatformImpl::MacOS(_) => &per_platform.macos,
                };
                match own {
                    Some(options) => options,
                    None => &config.install_options,
                }
            },
        }
    }

    /// What is to be written so that `install_dir` is on the search path,
    /// given what is written now; `None` when nothing is to be written.
    pub fn add_to_path(&self, install_dir: &str, current: &str) -> (r: Option<String>)
        ensures
            match r {
                Some(text) => spec_add_to_path(self, install_dir@, current@) == Some(text@),
                None => spec_add_to_path(self, install_dir@, current@) is None,
            },
    {
        match self {
            PlatformImpl::Windows(w) => w.add_to_path(install_dir, current),
            PlatformImpl::Linux(l) => l.add_to_path(install_dir, current),
            PlatformImpl::MacOS(m) => m.add_to_path(install_dir, current),
        }
    }

    /// What is to be written so that `install_dir` is off the search path,
    /// given what is written now; `None` when nothing is to be written.
    pub fn remove_from_path(&self, install_dir: &str, current: &str) -> (r: Option<String>)
        ensures
            match r {
                Some(text) => spec_remove_from_path(self, install_dir@, current@) == Some(text@),
                None => spec_remove_from_path(self, install_dir@, current@) is None,
            },
    {
        match self {
            PlatformImpl::Windows(w) => w.remove_from_path(install_dir, current),
            PlatformImpl::Linux(l) => l.remove_from_path(install_dir, current),
            PlatformImpl::MacOS(m) => m.remove_from_path(install_dir, current),
        }
    }
}

} // verus!
