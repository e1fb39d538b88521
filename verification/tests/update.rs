use macclean::update::{
    check_for_update, check_update_text, fetch_latest_version, parse_tag, tag_from_release_url,
    Fetched, UpdateCheck, Version, INSTALL_ONE_LINER,
};

const PKG_VERSION: &str = "0.1.0";

#[test]
fn parses_v_prefixed_and_bare_tags() {
    assert_eq!(parse_tag("v1.2.3"), Some(Version { major: 1, minor: 2, patch: 3 }));
    assert_eq!(parse_tag("0.10.0"), Some(Version { major: 0, minor: 10, patch: 0 }));
    // Surrounding whitespace (e.g. a trailing newline from curl) is tolerated.
    assert_eq!(parse_tag(" v2.0.1 \n"), Some(Version { major: 2, minor: 0, patch: 1 }));
}

#[test]
fn rejects_malformed_tags() {
    for bad in ["", "v1", "1.2", "1.2.3.4", "v1.2.x", "vfoo", "1.2.3-rc1", "latest"] {
        assert_eq!(parse_tag(bad), None, "should reject {bad:?}");
    }
}

#[test]
fn numbers_are_read_as_32_bit_decimals() {
    let v = |major, minor, patch| Some(Version { major, minor, patch });
    assert_eq!(parse_tag("+1.02.003"), v(1, 2, 3));
    assert_eq!(parse_tag("4294967295.0.0"), v(u32::MAX, 0, 0));
    for bad in ["4294967296.0.0", "99999999999999999999.0.0", "1..3", "+.1.1", "-1.0.0",
        "vv1.2.3", "v v1.2.3", "v", "1. 2.3", "١.٢.٣", ".1.2.3"] {
        assert_eq!(parse_tag(bad), None, "should reject {bad:?}");
    }
    // As the standard library reads them.
    for field in ["0", "+7", "007", "4294967295", "4294967296", "", "+", "-0", "1_0", "a"] {
        let want: Option<u32> = field.parse().ok();
        let tag = format!("{field}.0.0");
        assert_eq!(parse_tag(&tag).map(|v| v.major), want, "{field:?}");
    }
}

#[test]
fn version_ordering_is_major_minor_patch() {
    let v = |a, b, c| Version { major: a, minor: b, patch: c };
    // Older than current.
    assert!(v(0, 9, 9) < v(1, 0, 0));
    assert!(v(1, 0, 0) < v(1, 0, 1));
    assert!(v(1, 1, 0) < v(1, 2, 0));
    // Equal.
    assert_eq!(v(1, 2, 3), v(1, 2, 3));
    assert!(!(v(1, 2, 3) > v(1, 2, 3)));
    // Newer wins regardless of lower components.
    assert!(v(2, 0, 0) > v(1, 9, 9));
    assert!(v(1, 3, 0) > v(1, 2, 9));
    // The total order is the same.
    assert_eq!(v(1, 3, 0).max(v(1, 2, 9)), v(1, 3, 0));
}

#[test]
fn extracts_tag_from_release_redirect_url() {
    assert_eq!(
        tag_from_release_url("https://github.com/Ez4T/macclean/releases/tag/v0.2.0").as_deref(),
        Some("v0.2.0")
    );
    // A trailing slash is tolerated.
    assert_eq!(
        tag_from_release_url("https://github.com/Ez4T/macclean/releases/tag/v1.0.0/").as_deref(),
        Some("v1.0.0")
    );
    // No `/tag/` segment (e.g. the un-redirected latest URL) → None.
    assert_eq!(
        tag_from_release_url("https://github.com/Ez4T/macclean/releases/latest"),
        None
    );
    assert_eq!(tag_from_release_url("not a url"), None);
}

#[test]
fn only_the_last_segment_is_a_tag() {
    assert_eq!(tag_from_release_url("x/tag/tag/y").as_deref(), Some("y"));
    assert_eq!(tag_from_release_url("x/tag/a/b"), None);
    assert_eq!(tag_from_release_url("/tag/"), None);
    assert_eq!(tag_from_release_url("/tag/v1//").as_deref(), Some("v1"));
    assert_eq!(tag_from_release_url(""), None);
}

#[test]
fn current_matches_cargo_pkg_version() {
    let current = Version::current(PKG_VERSION);
    assert_eq!(current, parse_tag(PKG_VERSION).unwrap());
    assert_eq!(current.tag(), format!("v{}", PKG_VERSION));
}

fn resolved(url: &str) -> Fetched {
    Fetched::Resolved { output: url.as_bytes().to_vec() }
}

#[test]
fn every_failure_has_its_reason() {
    assert_eq!(
        fetch_latest_version(Fetched::NotRun { error: "no such file".into() }).unwrap_err(),
        "could not run curl: no such file"
    );
    assert_eq!(fetch_latest_version(Fetched::Refused).unwrap_err(), "network request failed");
    assert_eq!(
        fetch_latest_version(resolved("https://x/releases/latest\n")).unwrap_err(),
        "could not read the release tag"
    );
    assert_eq!(
        fetch_latest_version(resolved("https://x/releases/tag/v1.2.3-rc1")).unwrap_err(),
        "unrecognized release tag: v1.2.3-rc1"
    );
    assert_eq!(
        fetch_latest_version(Fetched::Resolved { output: b"x/tag/\xff".to_vec() }).unwrap_err(),
        "unrecognized release tag: \u{fffd}"
    );
    assert_eq!(
        fetch_latest_version(resolved(" https://x/releases/tag/v1.2.3/\n")).unwrap(),
        Version { major: 1, minor: 2, patch: 3 }
    );
}

#[test]
fn a_check_compares_and_reports() {
    let current = Version { major: 0, minor: 2, patch: 0 };
    let newer = check_for_update(current, resolved("h/tag/v0.10.0"));
    assert!(matches!(newer, UpdateCheck::Newer { .. }));
    assert_eq!(
        check_update_text(&newer),
        format!("A newer version v0.10.0 is available — reinstall:\n  {INSTALL_ONE_LINER}")
    );
    for same_or_older in ["h/tag/v0.2.0", "h/tag/v0.1.9"] {
        let check = check_for_update(current, resolved(same_or_older));
        assert!(matches!(check, UpdateCheck::UpToDate { .. }));
        assert_eq!(check_update_text(&check), "macclean v0.2.0 is up to date.");
    }
    let failed = check_for_update(current, Fetched::Refused);
    assert_eq!(
        check_update_text(&failed),
        "Couldn't check for updates (network request failed)."
    );
    assert_eq!(failed.clone(), failed);
    assert_eq!(newer.clone(), newer);
    assert_ne!(newer, failed);
    assert_eq!(
        newer,
        UpdateCheck::Newer { current, latest: Version { major: 0, minor: 10, patch: 0 } }
    );
    assert!(INSTALL_ONE_LINER.starts_with("curl -fsSL "));
}
