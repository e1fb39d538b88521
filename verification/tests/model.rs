use macclean::model::{Evidence, Item, RecoveryMethod, SafetyClass, Scan};
use macclean::path::DiskPath;

fn item(class: SafetyClass, recovery: RecoveryMethod, override_reclaim: bool) -> Item {
    Item {
        path: DiskPath::new("/tmp/mystery"),
        size_on_disk: 4096,
        class,
        recovery,
        evidence: Evidence { summary: "unknown".into() },
        override_reclaim,
    }
}

#[test]
fn recovery_line_reflects_method_and_destination() {
    let reinstall = Item {
        path: DiskPath::new("/tmp/node_modules"),
        size_on_disk: 4096,
        class: SafetyClass::Reinstallable,
        recovery: RecoveryMethod::Reinstall { command: "npm install".into() },
        evidence: Evidence { summary: "node_modules".into() },
        override_reclaim: false,
    };
    assert_eq!(reinstall.recovery_line(), "reinstall via `npm install`");

    let unknown = item(SafetyClass::Unclassified, RecoveryMethod::NoRecovery, true);
    assert!(unknown.recovery_line().contains("Trash"));
    assert_eq!(unknown.recovery_line(), "moved to Trash on Reclaim — restorable from there");
}

#[test]
fn every_recovery_method_has_its_sentence() {
    assert_eq!(
        RecoveryMethod::Rebuild { command: "cargo build".into() }.describe(),
        "rebuild via `cargo build`"
    );
    assert_eq!(RecoveryMethod::AutoRefill.describe(), "refills automatically on next use");
    assert_eq!(
        RecoveryMethod::SurvivingCopy { original: DiskPath::new("/a/b") }.describe(),
        "the surviving copy at /a/b"
    );
    // Where no place is known, none is named.
    assert_eq!(
        RecoveryMethod::SurvivingCopy { original: DiskPath::new("") }.describe(),
        "the surviving copy"
    );
    assert_eq!(RecoveryMethod::NoRecovery.describe(), "not recoverable");
    // A path that is not text is shown with replacement characters.
    let odd = DiskPath::from_bytes(vec![b'/', 0xff, b'z']);
    assert_eq!(odd.display(), "/\u{fffd}z");
}

#[test]
fn classes_and_what_they_allow() {
    let all = [
        (SafetyClass::Regenerable, "Regenerable", true, false, false),
        (SafetyClass::Reinstallable, "Reinstallable", true, false, false),
        (SafetyClass::Cache, "Cache", true, false, false),
        (SafetyClass::RedundantCopy, "Redundant Copy", true, false, false),
        (SafetyClass::BrowserCache, "BrowserCache", false, false, true),
        (SafetyClass::Irreplaceable, "Irreplaceable", false, true, false),
        (SafetyClass::Unclassified, "Unclassified", false, false, true),
    ];
    for (class, label, reclaimable, protected, needs_override) in all {
        assert_eq!(class.label(), label);
        assert_eq!(class.is_reclaimable(), reclaimable);
        assert_eq!(class.is_protected(), protected);
        assert_eq!(class.needs_override(), needs_override);
        assert_eq!(item(class, RecoveryMethod::NoRecovery, false).may_reclaim(), reclaimable);
        assert_eq!(
            item(class, RecoveryMethod::NoRecovery, true).may_reclaim(),
            reclaimable || needs_override
        );
    }
}

#[test]
fn the_reclaimable_total_skips_what_is_not_offered() {
    let scan = Scan {
        root: DiskPath::new("/"),
        items: vec![
            item(SafetyClass::Cache, RecoveryMethod::AutoRefill, false),
            item(SafetyClass::Irreplaceable, RecoveryMethod::NoRecovery, true),
            item(SafetyClass::Unclassified, RecoveryMethod::NoRecovery, false),
            item(SafetyClass::Unclassified, RecoveryMethod::NoRecovery, true),
        ],
    };
    assert_eq!(scan.reclaimable_bytes(), 8192);
    assert_eq!(Scan { root: DiskPath::new("/"), items: vec![] }.reclaimable_bytes(), 0);
}
