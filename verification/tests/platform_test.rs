use seesea_installer::platform::linux::LinuxImpl;
use seesea_installer::platform::macos::MacOSImpl;
use seesea_installer::platform::windows::WindowsImpl;
use seesea_installer::platform::{
    profile_line, profile_with, profile_without, PlatformError, PlatformImpl,
};
use seesea_installer::text::{remove_line, remove_text, str_contains};

#[test]
fn platform_is_chosen_by_tag() {
    assert!(matches!(PlatformImpl::new("linux"), Ok(PlatformImpl::Linux(_))));
    assert!(matches!(PlatformImpl::new("macos"), Ok(PlatformImpl::MacOS(_))));
    assert!(matches!(PlatformImpl::new("windows"), Ok(PlatformImpl::Windows(_))));
    assert!(matches!(PlatformImpl::new("freebsd"), Err(PlatformError::UnsupportedSystem)));
    assert!(matches!(PlatformImpl::new(""), Err(PlatformError::UnsupportedSystem)));
    assert!(matches!(PlatformImpl::new("Linux"), Err(PlatformError::UnsupportedSystem)));
}

#[test]
fn adapters_know_their_places() {
    assert_eq!(LinuxImpl::new().unwrap().uninstall_script_path, "/usr/local/bin/seesea-uninstall");
    assert_eq!(MacOSImpl::new().unwrap().uninstall_script_path, "/usr/local/bin/seesea-uninstall");
    assert_eq!(
        WindowsImpl::new().unwrap().uninstall_reg_path,
        r"SOFTWARE\Microsoft\Windows\CurrentVersion\Uninstall"
    );
    assert_eq!(LinuxImpl::new().unwrap().get_system_app_menu_dir(), "/usr/share/applications");
    assert_eq!(MacOSImpl::new().unwrap().get_applications_dir(), "/Applications");
    assert_eq!(
        WindowsImpl::new().unwrap().uninstall_key("demo"),
        r"SOFTWARE\Microsoft\Windows\CurrentVersion\Uninstall\demo"
    );
}

#[test]
fn profile_line_exports_the_directory() {
    assert_eq!(profile_line("/opt/demo"), "export PATH=\"$PATH:/opt/demo\"");
}

#[test]
fn directory_is_added_to_a_profile_once() {
    let added = profile_with("alias ll='ls -l'\n", "/opt/demo").unwrap();
    assert_eq!(added, "alias ll='ls -l'\n\nexport PATH=\"$PATH:/opt/demo\"\n");
    assert_eq!(profile_with(&added, "/opt/demo"), None);
    assert_eq!(profile_with("", "/x").unwrap(), "\nexport PATH=\"$PATH:/x\"\n");
    let linux = PlatformImpl::new("linux").unwrap();
    assert_eq!(linux.add_to_path("/opt/demo", "a\n"), profile_with("a\n", "/opt/demo"));
    let mac = PlatformImpl::new("macos").unwrap();
    assert_eq!(mac.add_to_path("/opt/demo", &added), None);
}

#[test]
fn directory_is_removed_from_a_profile() {
    let profile = "first\nexport PATH=\"$PATH:/opt/demo\"\nlast";
    assert_eq!(profile_without(profile, "/opt/demo").unwrap(), "first\nlast");
    assert_eq!(profile_without("first\nlast", "/opt/demo"), None);
    assert_eq!(profile_without(profile, "/opt/other"), None);
    // Joining the lines drops the line feed at the end.
    assert_eq!(profile_without("first\nlast\n", "/opt/demo").unwrap(), "first\nlast");
    let round = profile_with("a\nb", "/d").unwrap();
    assert_eq!(profile_without(&round, "/d").unwrap(), "a\nb");
    let linux = PlatformImpl::new("linux").unwrap();
    assert_eq!(linux.remove_from_path("/opt/demo", profile).unwrap(), "first\nlast");
}

#[test]
fn lines_are_removed_as_whole_lines() {
    assert_eq!(remove_line("a\nb\na\nc", "a"), "b\nc");
    assert_eq!(remove_line("a\r\nb\r\n", "a"), "b");
    assert_eq!(remove_line("ab\nb", "a"), "ab\nb");
    assert_eq!(remove_line("x\n\ny", "x"), "\ny");
    assert_eq!(remove_line("x\n\ny", ""), "x\ny");
    assert_eq!(remove_line("", "a"), "");
    assert_eq!(remove_line("a", "a"), "");
    assert_eq!(remove_line("a\r", "a"), "a\r");
    assert_eq!(remove_line("keep\r\nthis", "none"), "keep\nthis");
}

#[test]
fn text_is_searched_and_removed() {
    assert!(str_contains("/bin/bash", "bash"));
    assert!(!str_contains("/bin/zsh", "bash"));
    assert!(str_contains("anything", ""));
    assert!(str_contains("", ""));
    assert!(!str_contains("", "a"));
    assert!(str_contains("abc", "abc"));
    assert!(!str_contains("ab", "abc"));
    assert_eq!(remove_text("a;b;a", "a"), ";b;");
    assert_eq!(remove_text("aabb", "ab"), "ab");
    assert_eq!(remove_text("aaa", "aa"), "a");
    assert_eq!(remove_text("abc", ""), "abc");
    assert_eq!(remove_text("", "x"), "");
    assert_eq!(remove_text("\u{e9}x\u{e9}", "x"), "\u{e9}\u{e9}");
}

#[test]
fn linux_profile_follows_the_shell() {
    let l = LinuxImpl::new().unwrap();
    assert_eq!(l.shell_profile("/bin/bash"), ".bashrc");
    assert_eq!(l.shell_profile("/usr/bin/zsh"), ".zshrc");
    assert_eq!(l.shell_profile("/bin/fish"), ".bashrc");
    assert_eq!(l.shell_profile("/opt/zsh/bin/bash"), ".bashrc");
}

#[test]
fn linux_texts() {
    let l = LinuxImpl::new().unwrap();
    assert_eq!(l.shortcut_file_name("demo"), "demo.desktop");
    assert_eq!(
        l.desktop_entry("demo", "A demo", "/opt/demo/demo"),
        "[Desktop Entry]\nName=demo\nComment=A demo\nExec=/opt/demo/demo\nIcon=application-default-icon\nTerminal=false\nType=Application\nCategories=Utility;Application;\nStartupNotify=true\n"
    );
    let script = l.uninstall_script("demo", "1.2.3", "/usr/bin/setup");
    assert!(script.starts_with("#!/bin/bash\n# SeeSea Uninstaller\n\necho \"Uninstalling demo-1.2.3...\"\n"));
    assert!(script.contains("\n\"/usr/bin/setup\" uninstall\n"));
    assert!(script.ends_with("echo \"Uninstallation completed successfully!\"\n"));
}

#[test]
fn macos_texts() {
    let m = MacOSImpl::new().unwrap();
    assert_eq!(m.shortcut_file_name("demo"), "demo.app");
    let script = m.uninstall_script("demo", "1.2.3", "/usr/bin/setup");
    assert!(script.starts_with("#!/bin/bash\n# SeeSea Uninstaller for macOS\n"));
    assert!(script.contains("echo \"Uninstalling demo-1.2.3...\""));
    assert_eq!(m.add_to_path("/d", "x"), profile_with("x", "/d"));
    assert_eq!(m.remove_from_path("/d", "x"), None);
}

#[test]
fn windows_path_value() {
    let w = WindowsImpl::new().unwrap();
    assert_eq!(w.add_to_path(r"C:\Demo", r"C:\Windows").unwrap(), r"C:\Windows;C:\Demo");
    assert_eq!(w.add_to_path(r"C:\Demo", r"C:\Windows;").unwrap(), r"C:\Windows;C:\Demo");
    assert_eq!(w.add_to_path(r"C:\Demo", "").unwrap(), r";C:\Demo");
    assert_eq!(w.add_to_path(r"C:\Demo", r"C:\Windows;C:\Demo"), None);
    assert_eq!(w.add_to_path(r"C:\Demo", r"C:\DemoTools"), None);
    assert_eq!(w.remove_from_path(r"C:\Demo", r"C:\Windows;C:\Demo").unwrap(), r"C:\Windows;");
    assert_eq!(w.remove_from_path(r"C:\Demo", r"C:\Windows").unwrap(), r"C:\Windows");
    assert_eq!(w.remove_from_path("ab", "aabb;x").unwrap(), ";x");
    let p = PlatformImpl::new("windows").unwrap();
    assert_eq!(p.add_to_path("D", "C").unwrap(), "C;D");
    assert_eq!(p.remove_from_path("D", "C;D").unwrap(), "C;");
    assert_eq!(w.shortcut_file_name("demo"), "demo.lnk");
    assert_eq!(
        w.shortcut_command("a.lnk", "b.exe", "C:\\d"),
        "$WshShell = New-Object -comObject WScript.Shell; $Shortcut = $WshShell.CreateShortcut('a.lnk'); $Shortcut.TargetPath = 'b.exe'; $Shortcut.WorkingDirectory = 'C:\\d'; $Shortcut.Save()"
    );
}
