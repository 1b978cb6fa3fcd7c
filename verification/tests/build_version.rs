use aliasc::version::is_release_version;

#[test]
fn accepts_plain_semver() {
    assert!(is_release_version("0.0.7"));
}

#[test]
fn rejects_tag_prefixes_and_other_versions() {
    assert!(!is_release_version("v0.0.7"));
    assert!(!is_release_version("0.0"));
    assert!(!is_release_version("0.0.7-pre1"));
}

#[test]
fn release_versions_need_three_nonempty_digit_parts() {
    assert!(is_release_version("10.20.30"));
    assert!(!is_release_version("1..3"));
    assert!(!is_release_version("1.2.3.4"));
    assert!(!is_release_version(""));
    assert!(!is_release_version("1.2.x"));
    assert!(!is_release_version("1.2. 3"));
}
