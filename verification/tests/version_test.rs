use seesea_installer::version::{check_update, get_current_version, Version, VersionParseError};

#[test]
fn test_version_parse() {
    let version = Version::parse("1.0.0").unwrap();
    assert_eq!(version.major, 1);
    assert_eq!(version.minor, 0);
    assert_eq!(version.patch, 0);
    assert_eq!(version.pre_release, None);

    let version = Version::parse("2.1.3-beta").unwrap();
    assert_eq!(version.major, 2);
    assert_eq!(version.minor, 1);
    assert_eq!(version.patch, 3);
    assert_eq!(version.pre_release, Some("beta".to_string()));

    let version = Version::parse("3.2.1-alpha.1").unwrap();
    assert_eq!(version.major, 3);
    assert_eq!(version.minor, 2);
    assert_eq!(version.patch, 1);
    assert_eq!(version.pre_release, Some("alpha.1".to_string()));
}

#[test]
fn test_version_compare() {
    let v1 = Version::parse("1.0.0").unwrap();
    let v2 = Version::parse("1.0.0").unwrap();
    assert_eq!(v1.compare(&v2), 0);

    let v1 = Version::parse("1.0.0").unwrap();
    let v2 = Version::parse("2.0.0").unwrap();
    assert_eq!(v1.compare(&v2), -1);
    assert_eq!(v2.compare(&v1), 1);

    let v1 = Version::parse("1.0.0").unwrap();
    let v2 = Version::parse("1.1.0").unwrap();
    assert_eq!(v1.compare(&v2), -1);
    assert_eq!(v2.compare(&v1), 1);

    let v1 = Version::parse("1.0.0").unwrap();
    let v2 = Version::parse("1.0.1").unwrap();
    assert_eq!(v1.compare(&v2), -1);
    assert_eq!(v2.compare(&v1), 1);

    let v1 = Version::parse("1.0.0-beta").unwrap();
    let v2 = Version::parse("1.0.0").unwrap();
    assert_eq!(v1.compare(&v2), -1);
    assert_eq!(v2.compare(&v1), 1);

    let v1 = Version::parse("1.0.0-alpha").unwrap();
    let v2 = Version::parse("1.0.0-beta").unwrap();
    assert_eq!(v1.compare(&v2), -1);
    assert_eq!(v2.compare(&v1), 1);
}

#[test]
fn test_version_to_string() {
    let version = Version::parse("1.0.0").unwrap();
    assert_eq!(version.to_string(), "1.0.0");

    let version = Version::parse("2.1.3-beta").unwrap();
    assert_eq!(version.to_string(), "2.1.3-beta");

    let version = Version::parse("3.2.1-alpha.1").unwrap();
    assert_eq!(version.to_string(), "3.2.1-alpha.1");
}

#[test]
fn test_check_update() {
    let current_version = None;
    let new_version = Version::parse("1.0.0").unwrap();
    assert!(check_update(current_version, &new_version, false));

    let current_version = Some(Version::parse("1.0.0").unwrap());
    let new_version = Version::parse("1.1.0").unwrap();
    assert!(check_update(current_version, &new_version, false));

    let current_version = Some(Version::parse("1.0.0").unwrap());
    let new_version = Version::parse("1.0.0").unwrap();
    assert!(!check_update(current_version, &new_version, false));

    let current_version = Some(Version::parse("1.1.0").unwrap());
    let new_version = Version::parse("1.0.0").unwrap();
    assert!(!check_update(current_version, &new_version, false));

    let current_version = Some(Version::parse("1.1.0").unwrap());
    let new_version = Version::parse("1.0.0").unwrap();
    assert!(check_update(current_version, &new_version, true));
}

#[test]
fn version_order_is_ascending() {
    let a = Version::parse("1.0.0").unwrap();
    let b = Version::parse("1.0.1").unwrap();
    let c = Version::parse("1.1.0").unwrap();
    let d = Version::parse("2.0.0").unwrap();
    assert_eq!(a.compare(&b), -1);
    assert_eq!(b.compare(&c), -1);
    assert_eq!(c.compare(&d), -1);
    assert_eq!(a.compare(&d), -1);
    let beta = Version::parse("1.0.0-beta").unwrap();
    assert_eq!(beta.compare(&a), -1);
}

#[test]
fn version_with_two_components_is_rejected() {
    assert_eq!(Version::parse("1.0"), Err(VersionParseError::MissingComponents));
    assert_eq!(Version::parse(""), Err(VersionParseError::MissingComponents));
    assert_eq!(Version::parse("-1.0.0"), Err(VersionParseError::MissingComponents));
}

#[test]
fn version_with_bad_number_is_rejected() {
    assert_eq!(Version::parse("1.x.0"), Err(VersionParseError::InvalidNumber));
    assert_eq!(Version::parse("1..0"), Err(VersionParseError::InvalidNumber));
    assert_eq!(Version::parse("4294967296.0.0"), Err(VersionParseError::InvalidNumber));
    assert_eq!(Version::parse("1.0. 0"), Err(VersionParseError::InvalidNumber));
}

#[test]
fn version_number_limits() {
    let v = Version::parse("4294967295.0.7").unwrap();
    assert_eq!(v.major, 4294967295);
    assert_eq!(v.patch, 7);
    assert_eq!(v.to_string(), "4294967295.0.7");
    let v = Version::parse("+1.02.3").unwrap();
    assert_eq!((v.major, v.minor, v.patch), (1, 2, 3));
}

#[test]
fn version_ignores_further_components() {
    let v = Version::parse("1.2.3.4").unwrap();
    assert_eq!((v.major, v.minor, v.patch), (1, 2, 3));
    assert_eq!(v.pre_release, None);
}

#[test]
fn pre_release_keeps_later_hyphens() {
    let v = Version::parse("1.2.3-rc-1").unwrap();
    assert_eq!(v.pre_release, Some("rc-1".to_string()));
    assert_eq!(v.to_string(), "1.2.3-rc-1");
    let v = Version::parse("1.2.3-").unwrap();
    assert_eq!(v.pre_release, Some(String::new()));
}

#[test]
fn pre_release_order_is_bytewise() {
    let rc9 = Version::parse("1.0.0-rc9").unwrap();
    let rc10 = Version::parse("1.0.0-rc10").unwrap();
    assert_eq!(rc9.compare(&rc10), 1);
    assert_eq!(rc10.compare(&rc9), -1);
    let short = Version::parse("1.0.0-rc").unwrap();
    assert_eq!(short.compare(&rc9), -1);
    let accented = Version::parse("1.0.0-\u{e9}").unwrap();
    let plain = Version::parse("1.0.0-z").unwrap();
    assert_eq!(plain.compare(&accented), -1);
}

#[test]
fn parse_inverts_to_string() {
    for text in ["0.0.0", "10.20.30", "1.0.0-beta", "7.8.9-a.b-c"] {
        let v = Version::parse(text).unwrap();
        assert_eq!(v.to_string(), text);
        assert_eq!(Version::parse(&v.to_string()).unwrap(), v);
    }
}

#[test]
fn current_version_from_marker() {
    assert_eq!(get_current_version(None), Ok(None));
    assert_eq!(get_current_version(Some("")), Ok(None));
    assert_eq!(get_current_version(Some(" \n\t ")), Ok(None));
    assert_eq!(
        get_current_version(Some("  1.2.3-beta\n")),
        Ok(Some(Version::parse("1.2.3-beta").unwrap()))
    );
    assert_eq!(get_current_version(Some("1.1.0")), Ok(Some(Version::parse("1.1.0").unwrap())));
    assert_eq!(get_current_version(Some("1.2")), Err(VersionParseError::MissingComponents));
    assert_eq!(get_current_version(Some("a.b.c")), Err(VersionParseError::InvalidNumber));
}

#[test]
fn downgrade_is_due_only_when_forced() {
    let current = Version::parse("2.0.0").unwrap();
    let new = Version::parse("1.0.0").unwrap();
    assert!(check_update(Some(current.clone()), &new, true));
    assert!(!check_update(Some(current), &new, false));
}

#[test]
fn versions_compare_with_operators() {
    let parse = |text: &str| Version::parse(text).unwrap();
    assert!(parse("1.0.0") < parse("1.0.1"));
    assert!(parse("1.0.1") < parse("1.1.0"));
    assert!(parse("1.1.0") < parse("2.0.0"));
    assert!(parse("1.0.0-beta") < parse("1.0.0"));
    assert!(parse("1.0.0") > parse("1.0.0-beta"));
    assert!(parse("1.0.0-alpha") < parse("1.0.0-beta"));
    assert!(parse("1.2.3") <= parse("1.2.3"));
    assert!(parse("1.2.3") >= parse("1.2.3"));
    assert!(!(parse("1.2.3") < parse("1.2.3")));
    assert!(Version::parse("1.0").is_err());
}
