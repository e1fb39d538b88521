use macclean::classify::{Markers, PathFacts};
use macclean::job::{finished, run_reclaim_worker, started, QueuedItem, ReclaimMessage, WorkerStep};
use macclean::model::{Evidence, Item, RecoveryMethod, SafetyClass};
use macclean::path::DiskPath;
use macclean::reclaim::{
    after_probe, conclude, planned_action, reclaim, reclaimed_label, ReclaimStep, Reclaimed,
    StepOutcome,
};
use macclean::ruleset::{Match, Rule, Ruleset};

fn item(path: &str, class: SafetyClass, override_reclaim: bool) -> Item {
    Item {
        path: DiskPath::new(path),
        size_on_disk: 4096,
        class,
        recovery: RecoveryMethod::NoRecovery,
        evidence: Evidence { summary: "fixture".into() },
        override_reclaim,
    }
}

fn facts(is_dir: bool) -> PathFacts {
    PathFacts { is_dir, markers: Markers { siblings: vec![], children: vec![] } }
}

fn cleaning(command: &str) -> Ruleset {
    Ruleset {
        rules: vec![Rule {
            name: "fixture-clean".into(),
            matches: Match::DirNamed { dir: "buildcache".into() },
            class: SafetyClass::Regenerable,
            clean_command: Some(command.into()),
            recover_command: Some("make".into()),
            evidence: "fixture".into(),
        }],
    }
}

#[test]
fn refuses_protected_item() {
    let it = item("/t/disk.img.raw", SafetyClass::Irreplaceable, false);
    let step = reclaim(&it, &Ruleset::defaults(), &facts(false));
    let err = conclude(step, &it.path, StepOutcome::Done).unwrap_err();
    assert_eq!(err, "/t/disk.img.raw is Irreplaceable and not reclaimable");
    // Not even an override lifts the protection.
    let forced = item("/t/disk.img.raw", SafetyClass::Irreplaceable, true);
    assert!(matches!(
        reclaim(&forced, &Ruleset::defaults(), &facts(false)),
        ReclaimStep::Refuse { .. }
    ));
}

#[test]
fn refuses_unoverridden_unclassified() {
    for class in [SafetyClass::Unclassified, SafetyClass::BrowserCache] {
        let it = item("/t/mystery", class, false);
        assert!(matches!(
            reclaim(&it, &Ruleset::defaults(), &facts(true)),
            ReclaimStep::Refuse { .. }
        ));
    }
}

#[test]
fn overridden_unclassified_routes_to_trash() {
    let it = item("/t/macclean-test-trash-me", SafetyClass::Unclassified, true);
    let step = reclaim(&it, &Ruleset::defaults(), &facts(true));
    assert!(matches!(step, ReclaimStep::Trash));
    assert_eq!(planned_action(&step), "Moving to Trash");
    assert!(matches!(conclude(step, &it.path, StepOutcome::Done), Ok(Reclaimed::Trashed)));
    assert_eq!(
        conclude(ReclaimStep::Trash, &it.path, StepOutcome::Failed).unwrap_err(),
        "trashing /t/macclean-test-trash-me"
    );
}

#[test]
fn overridden_browser_cache_is_removed() {
    let it = item("/t/Safari", SafetyClass::BrowserCache, true);
    assert!(matches!(
        reclaim(&it, &Ruleset::defaults(), &facts(true)),
        ReclaimStep::Remove
    ));
}

#[test]
fn prefers_clean_command_when_present() {
    let it = item("/t/buildcache", SafetyClass::Regenerable, false);
    let step = reclaim(&it, &cleaning("true"), &facts(true));
    let command = match step {
        ReclaimStep::Probe { command, script } => {
            assert_eq!(script, "command -v true");
            command
        }
        other => panic!("expected a probe, got {other:?}"),
    };
    let step = after_probe(command, true);
    assert_eq!(planned_action(&step), "Running `true`");
    match conclude(step, &it.path, StepOutcome::Done).unwrap() {
        Reclaimed::ToolClean { command } => assert_eq!(command, "true"),
        other => panic!("expected ToolClean, got {other:?}"),
    }
}

#[test]
fn copies_and_caches_are_removed_whatever_the_rule_says() {
    for class in [SafetyClass::RedundantCopy, SafetyClass::Cache] {
        let it = item("/t/buildcache", class, false);
        let step = reclaim(&it, &cleaning("true"), &facts(true));
        assert!(matches!(step, ReclaimStep::Remove), "{class:?}");
        assert!(matches!(conclude(step, &it.path, StepOutcome::Done), Ok(Reclaimed::Removed)));
    }
    let it = item("/t/buildcache", SafetyClass::BrowserCache, true);
    assert!(matches!(reclaim(&it, &cleaning("true"), &facts(true)), ReclaimStep::Remove));
    // What can be reinstalled is cleaned by its tool.
    let it = item("/t/buildcache", SafetyClass::Reinstallable, false);
    assert!(matches!(reclaim(&it, &cleaning("true"), &facts(true)), ReclaimStep::Probe { .. }));
}

#[test]
fn the_first_word_of_a_command_is_its_tool() {
    let it = item("/t/buildcache", SafetyClass::Regenerable, false);
    match reclaim(&it, &cleaning("  cargo\u{a0}clean --all "), &facts(true)) {
        ReclaimStep::Probe { command, script } => {
            assert_eq!(script, "command -v cargo");
            assert_eq!(command, "  cargo\u{a0}clean --all ");
        }
        other => panic!("expected a probe, got {other:?}"),
    }
    // A command without a word has no tool, so the Item is removed.
    assert!(matches!(reclaim(&it, &cleaning(" \t "), &facts(true)), ReclaimStep::Remove));
    // A file of that name is not matched by the Rule.
    assert!(matches!(reclaim(&it, &cleaning("true"), &facts(false)), ReclaimStep::Remove));
}

#[test]
fn falls_back_to_rm_without_a_clean_command() {
    let it = item("/t/node_modules", SafetyClass::Reinstallable, false);
    let step = reclaim(&it, &Ruleset::defaults(), &facts(true));
    assert!(matches!(step, ReclaimStep::Remove));
    assert_eq!(planned_action(&step), "Removing");
    assert!(matches!(conclude(step, &it.path, StepOutcome::Done), Ok(Reclaimed::Removed)));
    // So does an absent tool.
    assert!(matches!(after_probe("cargo clean".into(), false), ReclaimStep::Remove));
}

#[test]
fn failures_are_reported_as_they_are() {
    let path = DiskPath::new("/t/x");
    let clean = || ReclaimStep::Clean { command: "make clean".into() };
    assert_eq!(
        conclude(clean(), &path, StepOutcome::NoParent).unwrap_err(),
        "item has no parent directory"
    );
    assert_eq!(
        conclude(clean(), &path, StepOutcome::Failed).unwrap_err(),
        "running `make clean`"
    );
    assert_eq!(
        conclude(clean(), &path, StepOutcome::Exited { status: "exit status: 2".into() })
            .unwrap_err(),
        "`make clean` exited with exit status: 2"
    );
    assert_eq!(
        conclude(ReclaimStep::Remove, &path, StepOutcome::Failed).unwrap_err(),
        "removing /t/x"
    );
}

#[test]
fn labels_of_what_was_done() {
    assert_eq!(
        reclaimed_label(Reclaimed::ToolClean { command: "cargo clean".into() }),
        "cleaned via `cargo clean`"
    );
    assert_eq!(reclaimed_label(Reclaimed::Removed), "removed");
    assert_eq!(reclaimed_label(Reclaimed::Trashed), "moved to Trash");
}

#[test]
fn the_worker_runs_in_order_until_it_is_stopped() {
    assert_eq!(run_reclaim_worker(0, 2, false), WorkerStep::Start { pos: 0 });
    assert_eq!(run_reclaim_worker(0, 2, true), WorkerStep::Start { pos: 0 });
    assert_eq!(run_reclaim_worker(1, 2, false), WorkerStep::Start { pos: 1 });
    assert_eq!(run_reclaim_worker(1, 2, true), WorkerStep::Finish { stopped: true });
    assert_eq!(run_reclaim_worker(2, 2, true), WorkerStep::Finish { stopped: false });
}

#[test]
fn the_worker_reports_what_it_does() {
    let queued = QueuedItem { index: 5, item: item("/t/x", SafetyClass::Cache, false) };
    match started(0, &queued, &ReclaimStep::Remove) {
        ReclaimMessage::ItemStarted { ordinal, path, action } => {
            assert_eq!((ordinal, path.display(), action), (1, "/t/x".into(), "Removing".into()));
        }
        other => panic!("unexpected {other:?}"),
    }
    match finished(&queued, Err("removing /t/x".into())) {
        ReclaimMessage::ItemFinished { index, bytes, result } => {
            assert_eq!((index, bytes), (5, 4096));
            assert_eq!(result.unwrap_err(), "/t/x: removing /t/x");
        }
        other => panic!("unexpected {other:?}"),
    }
    match finished(&queued, Ok(Reclaimed::Removed)) {
        ReclaimMessage::ItemFinished { result, .. } => assert_eq!(result.unwrap(), "removed"),
        other => panic!("unexpected {other:?}"),
    }
}
