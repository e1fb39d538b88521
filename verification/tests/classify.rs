use macclean::classify::{match_rule, match_rule_index, match_rule_typed, wanted_markers, Markers, PathFacts};
use macclean::glob::glob_match;
use macclean::model::SafetyClass;
use macclean::path::DiskPath;
use macclean::ruleset::{Match, Rule, Ruleset};

fn rule(name: &str, matches: Match) -> Rule {
    Rule {
        name: name.into(),
        matches,
        class: SafetyClass::Cache,
        clean_command: None,
        recover_command: None,
        evidence: "fixture".into(),
    }
}

fn no_markers() -> Markers {
    Markers { siblings: vec![], children: vec![] }
}

fn found(rs: &Ruleset, path: &str, is_dir: bool) -> Option<String> {
    match_rule_typed(rs, &DiskPath::new(path), is_dir, &no_markers()).map(|r| r.name.clone())
}

#[test]
fn glob_match_handles_star_and_question() {
    assert!(glob_match("*.zst", "archive.tar.zst"));
    assert!(glob_match("core.*", "core.12345"));
    assert!(glob_match("?cache", "Xcache"));
    assert!(glob_match("*", "anything"));
    assert!(glob_match("a*b*c", "axxbyyc"));
    assert!(glob_match("exact", "exact"));

    assert!(!glob_match("*.zst", "archive.tar.gz"));
    assert!(!glob_match("?cache", "cache")); // ? needs exactly one char
    assert!(!glob_match("core.*", "core")); // literal dot must be present
    assert!(!glob_match("a*c", "abx"));
}

#[test]
fn glob_star_in_the_text_is_an_ordinary_character() {
    assert!(glob_match("*b", "*ab"));
    assert!(glob_match("*", ""));
    assert!(glob_match("", ""));
    assert!(!glob_match("", "x"));
    assert!(glob_match("?", "*"));
    assert!(!glob_match("a", "*"));
    assert!(glob_match("é*", "éa"));
}

#[test]
fn name_glob_rule_matches_by_wildcard() {
    let rs = Ruleset {
        rules: vec![rule("zst-archives", Match::NameGlob { pattern: "*.zst".into() })],
    };
    assert_eq!(found(&rs, "/d/backup.tar.zst", false).unwrap(), "zst-archives");
    assert!(found(&rs, "/d/backup.tar.gz", false).is_none());
}

#[test]
fn all_combinator_requires_every_condition() {
    // Match only a directory named `build` that also contains a `marker` file.
    let rs = Ruleset {
        rules: vec![rule(
            "guarded-build",
            Match::All {
                of: vec![
                    Match::DirNamed { dir: "build".into() },
                    Match::DirContainingFile { file: "marker".into() },
                ],
            },
        )],
    };
    let build = DiskPath::new("/tmp/x/build");

    // Name matches but the marker is missing → AND fails.
    assert!(match_rule_typed(&rs, &build, true, &no_markers()).is_none());

    // Add the marker → both conditions hold.
    let with_marker = Markers { siblings: vec![], children: vec!["marker".into()] };
    assert_eq!(match_rule_typed(&rs, &build, true, &with_marker).unwrap().name, "guarded-build");
    // A file never matches a directory condition.
    assert!(match_rule_typed(&rs, &build, false, &with_marker).is_none());
}

#[test]
fn any_combinator_matches_either_spelling() {
    let rs = Ruleset {
        rules: vec![rule(
            "zstd-either",
            Match::Any {
                of: vec![
                    Match::NameGlob { pattern: "*.zst".into() },
                    Match::NameGlob { pattern: "*.zstd".into() },
                ],
            },
        )],
    };
    assert_eq!(found(&rs, "/a.zst", false).unwrap(), "zstd-either");
    assert_eq!(found(&rs, "/a.zstd", false).unwrap(), "zstd-either");
    assert!(found(&rs, "/a.gz", false).is_none());
}

#[test]
fn empty_combinators_hold_of_all_and_of_none() {
    let all = Ruleset { rules: vec![rule("all", Match::All { of: vec![] })] };
    let any = Ruleset { rules: vec![rule("any", Match::Any { of: vec![] })] };
    assert_eq!(found(&all, "/x", false).unwrap(), "all");
    assert!(found(&any, "/x", false).is_none());
}

#[test]
fn suffix_conditions_apply_to_files_and_directories() {
    let rs = Ruleset {
        rules: vec![
            rule("uv", Match::PathSuffix { suffix: ".cache/uv".into() }),
            rule("vdi", Match::NameSuffix { suffix: ".vdi".into() }),
        ],
    };
    assert_eq!(found(&rs, "/home/a/.cache/uv", true).unwrap(), "uv");
    assert_eq!(found(&rs, "/home/a/.cache/uv", false).unwrap(), "uv");
    assert_eq!(found(&rs, "/vm/disk.vdi", false).unwrap(), "vdi");
    assert!(found(&rs, "/vm/disk.vdi/inner", false).is_none());
}

#[test]
fn a_name_that_is_not_utf8_is_an_empty_name() {
    let rs = Ruleset {
        rules: vec![
            rule("suffix", Match::NameSuffix { suffix: "x".into() }),
            rule("lossy", Match::PathSuffix { suffix: "\u{fffd}x".into() }),
        ],
    };
    let path = DiskPath::from_bytes(vec![b'/', 0xff, b'x']);
    assert_eq!(match_rule_typed(&rs, &path, false, &no_markers()).unwrap().name, "lossy");
}

#[test]
fn first_rule_wins_and_user_rules_come_first() {
    let user = Ruleset {
        rules: vec![rule("mine", Match::DirNamed { dir: "node_modules".into() })],
    };
    let merged = Ruleset::defaults().with_user_rules(user);
    let path = DiskPath::new("/p/node_modules");
    assert_eq!(match_rule_index(&merged, &path, true, &no_markers()), Some(0));
    assert_eq!(match_rule_typed(&merged, &path, true, &no_markers()).unwrap().name, "mine");
    assert_eq!(
        match_rule_typed(&Ruleset::defaults(), &path, true, &no_markers()).unwrap().name,
        "node-modules"
    );
    let facts = PathFacts { is_dir: true, markers: no_markers() };
    assert_eq!(match_rule(&merged, &path, &facts).unwrap().class, SafetyClass::Cache);
}

#[test]
fn markers_decide_sibling_and_child_rules() {
    let rs = Ruleset::defaults();
    let target = DiskPath::new("/p/target");
    assert!(match_rule_typed(&rs, &target, true, &no_markers()).is_none());
    let beside = Markers { siblings: vec!["Cargo.toml".into()], children: vec![] };
    let found = match_rule_typed(&rs, &target, true, &beside).unwrap();
    assert_eq!(found.class, SafetyClass::Regenerable);
    assert_eq!(found.clean_command.as_deref(), Some("cargo clean"));
    let pg = Markers { siblings: vec![], children: vec!["PG_VERSION".into()] };
    assert_eq!(
        match_rule_typed(&rs, &DiskPath::new("/p/data"), true, &pg).unwrap().class,
        SafetyClass::Irreplaceable
    );
}

#[test]
fn only_wanted_markers_are_probed() {
    let rs = Ruleset::defaults();
    let wanted = wanted_markers(&rs, &DiskPath::new("/p/target"), true);
    assert!(wanted.siblings.iter().any(|s| s == "Cargo.toml"));
    assert!(wanted.children.iter().any(|s| s == "PG_VERSION"));
    let other = wanted_markers(&rs, &DiskPath::new("/p/src"), true);
    assert!(other.siblings.is_empty());
    let file = wanted_markers(&rs, &DiskPath::new("/p/target"), false);
    assert!(file.siblings.is_empty());
    assert!(file.children.is_empty());
}

#[test]
fn file_names_follow_the_last_named_component() {
    assert_eq!(DiskPath::new("/a/b/").name(), "b");
    assert_eq!(DiskPath::new("/a/b/.").name(), "b");
    assert_eq!(DiskPath::new("/a/..").name(), "");
    assert_eq!(DiskPath::new("/").name(), "");
    assert_eq!(DiskPath::new("x").file_name(), Some(vec![b'x']));
    assert_eq!(DiskPath::new("/a").join(&DiskPath::new("b")), DiskPath::new("/a/b"));
    assert_eq!(DiskPath::new("/").join(&DiskPath::new("b")), DiskPath::new("/b"));
    assert_eq!(DiskPath::new("/a").join(&DiskPath::new("/b")), DiskPath::new("/b"));
    assert_eq!(DiskPath::new("").join(&DiskPath::new("b")), DiskPath::new("b"));
}
