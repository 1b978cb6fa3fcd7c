use aliasc::version::{
    asset_name, is_newer, normalize_version, plan_update, powershell_quote, version_parts, UpdatePlan,
};

#[test]
fn release_version_is_compared_without_a_v_prefix() {
    assert!(is_newer("1.2.0", "0.1.0"));
    assert!(is_newer("1.2.0", "v1.1.9"));
    assert!(!is_newer("v0.1.0", "0.1.0"));
    assert!(!is_newer("0.0.9", "0.1.0"));
}

#[test]
fn windows_asset_names_include_exe() {
    for arch in ["x86_64", "x86", "aarch64"] {
        assert!(asset_name("windows", arch).unwrap().ends_with(".exe"));
    }
}

#[test]
fn asset_names_follow_the_target_triple() {
    assert_eq!(asset_name("linux", "x86_64").unwrap(), "aliasc-x86_64-unknown-linux-gnu");
    assert_eq!(asset_name("macos", "aarch64").unwrap(), "aliasc-aarch64-apple-darwin");
    assert_eq!(asset_name("android", "aarch64").unwrap(), "aliasc-aarch64-linux-android");
    assert_eq!(asset_name("windows", "x86").unwrap(), "aliasc-i686-pc-windows-msvc.exe");
    assert_eq!(
        asset_name("freebsd", "x86_64").unwrap_err(),
        "no published aliasc asset for this platform (freebsd/x86_64)"
    );
    assert!(asset_name("linux", "aarch64").is_err());
}

#[test]
fn versions_are_normalized() {
    assert_eq!(normalize_version("  v1.2.3-beta.1 "), "1.2.3");
    assert_eq!(normalize_version("vv2.0"), "2.0");
    assert_eq!(normalize_version("3.4"), "3.4");
    assert_eq!(normalize_version(""), "");
    assert_eq!(normalize_version("-x"), "");
}

#[test]
fn version_parts_parse_each_piece_or_zero() {
    assert_eq!(version_parts("1.2.3"), vec![1, 2, 3]);
    assert_eq!(version_parts("v1.x.+7"), vec![0, 0, 7]);
    assert_eq!(version_parts(""), vec![0]);
    assert_eq!(version_parts("18446744073709551615.18446744073709551616"), vec![u64::MAX, 0]);
    assert_eq!(version_parts("1..2"), vec![1, 0, 2]);
}

#[test]
fn newer_compares_lexicographically() {
    assert!(is_newer("1.2.1", "1.2"));
    assert!(!is_newer("1.2", "1.2.0"));
    assert!(is_newer("1.10.0", "1.9.9"));
    assert!(!is_newer("1.0.0", "1.0.0"));
    assert!(!is_newer("1.0.0", "v1.0.0"));
    assert!(!is_newer("0.9", "1.0.0-rc1"));
}

#[test]
fn powershell_quotes_are_doubled() {
    assert_eq!(powershell_quote("C:\\Users\\o'neil\\aliasc.exe"), "C:\\Users\\o''neil\\aliasc.exe");
    assert_eq!(powershell_quote("''"), "''''");
    assert_eq!(powershell_quote("plain"), "plain");
}

#[test]
fn update_plans_follow_versions_and_assets() {
    let names = vec![
        "aliasc-x86_64-unknown-linux-gnu".to_string(),
        "aliasc-x86_64-pc-windows-msvc.exe".to_string(),
    ];
    match plan_update(false, "v0.0.7", "0.0.7", &names, "linux", "x86_64").unwrap() {
        UpdatePlan::AlreadyCurrent { version } => assert_eq!(version, "0.0.7"),
        other => panic!("unexpected {:?}", other),
    }
    match plan_update(true, "v0.0.7", "0.0.7", &names, "windows", "x86_64").unwrap() {
        UpdatePlan::Download { version, asset } => {
            assert_eq!(version, "0.0.7");
            assert_eq!(asset, 1);
        }
        other => panic!("unexpected {:?}", other),
    }
    match plan_update(false, "v0.1.0", "0.0.7", &names, "linux", "x86_64").unwrap() {
        UpdatePlan::Download { asset, .. } => assert_eq!(asset, 0),
        other => panic!("unexpected {:?}", other),
    }
    assert_eq!(
        plan_update(false, "v0.1.0", "0.0.7", &names, "macos", "aarch64").unwrap_err(),
        "release v0.1.0 has no asset for this target (aliasc-aarch64-apple-darwin)"
    );
    assert_eq!(
        plan_update(false, "v0.1.0", "0.0.7", &names, "plan9", "mips").unwrap_err(),
        "no published aliasc asset for this platform (plan9/mips)"
    );
}

#[test]
fn at_most_one_version_is_newer() {
    for (a, b) in [("1.2.3", "1.2.4"), ("2.0", "1.9.9"), ("1.0", "1.0.0"), ("0.0.1", "0.0.1")] {
        assert!(!(is_newer(a, b) && is_newer(b, a)), "{} {}", a, b);
    }
    assert!(is_newer("1.2.4", "1.2.3") && !is_newer("1.2.3", "1.2.4"));
    assert_eq!(is_newer("2.0.0", "v 1.0"), is_newer("2.0.0", "v 1.0"));
    assert_eq!(is_newer("1.0.1", "v1.0.0"), is_newer("1.0.1", "1.0.0"));
}
