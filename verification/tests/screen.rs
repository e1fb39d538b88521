use macclean::cli::{load_ruleset, min_unclassified_bytes, resolve_root, scan_report, user_rules_path};
use macclean::job::ReclaimMessage;
use macclean::modal::{centered_rect, draw_confirm, draw_reclaiming, Area};
use macclean::model::{Evidence, Item, RecoveryMethod, SafetyClass, Scan};
use macclean::overview::{draw_overview, overview_title};
use macclean::path::DiskPath;
use macclean::ruleset::{Match, Rule, Ruleset};
use macclean::screen::{
    class_color, draw_detail, draw_group_list, draw_item_list, draw_loading, header_line,
    item_list_title, loading_header, spinner, Line, Tint,
};
use macclean::state::{AppState, ConfirmTarget, Key};

fn item(path: &str, size_on_disk: u64, class: SafetyClass) -> Item {
    Item {
        path: DiskPath::new(path),
        size_on_disk,
        class,
        recovery: RecoveryMethod::AutoRefill,
        evidence: Evidence { summary: "why".into() },
        override_reclaim: false,
    }
}

fn state() -> AppState {
    AppState::new(Scan {
        root: DiskPath::new("/home/me"),
        items: vec![
            item("/home/me/x", 4096, SafetyClass::Unclassified),
            item("/home/me/.npm", 2048, SafetyClass::Cache),
            item("/home/me/.yarn", 512, SafetyClass::Cache),
            item("/home/me/d.vdi", 100, SafetyClass::Irreplaceable),
        ],
    })
}

fn text(line: &Line) -> String {
    line.spans.iter().map(|s| s.text.as_str()).collect()
}

fn texts(lines: &[Line]) -> Vec<String> {
    lines.iter().map(text).collect()
}

#[test]
fn the_loading_screen() {
    assert_eq!(text(&loading_header(&DiskPath::new("/r"))), " /r  · scanning filesystem");
    let panel = draw_loading(12, 11);
    assert_eq!(text(&panel[1]), "  ⠙ Scan running for 12s");
    assert_eq!(panel[1].spans[1].tint, Tint::Yellow);
    assert!(panel[1].spans[1].bold);
    assert_eq!(panel.len(), 4);
    let frames: String = (0..10).map(spinner).collect();
    assert_eq!(frames, "⠋⠙⠹⠸⠼⠴⠦⠧⠇⠏");
}

#[test]
fn the_header_counts_what_is_reclaimable() {
    let line = header_line(&state());
    assert_eq!(text(&line), " /home/me  · reclaimable now: 2.5K");
    assert!(line.spans[0].bold);
    assert_eq!(line.spans[1].tint, Tint::Green);
}

#[test]
fn the_group_rows() {
    let rows = draw_group_list(&state());
    assert_eq!(
        texts(&rows),
        vec![
            "Cache                   2.5K total    2 Items      2.5K reclaimable",
            "Unclassified            4.0K total    1 Item  needs override",
            "Irreplaceable           100B total    1 Item  Protected",
        ]
    );
    assert_eq!(rows[0].spans[0].tint, class_color(SafetyClass::Cache));
    assert_eq!(rows[2].spans[3].tint, Tint::Red);
}

#[test]
fn the_item_rows() {
    let mut app = state();
    let rows = draw_item_list(&app, SafetyClass::Cache);
    assert_eq!(
        texts(&rows),
        vec![
            "    2.0K  Cache           /home/me/.npm   · why",
            "    512B  Cache           /home/me/.yarn   · why",
        ]
    );
    assert_eq!(item_list_title(SafetyClass::RedundantCopy), " Redundant Copy Items ");
    app.handle_key(Key::Char('a'));
    assert!(text(&draw_item_list(&app, SafetyClass::Cache)[0]).starts_with("✓     2.0K"));
    app.group_list = Some(1);
    app.handle_key(Key::Enter);
    app.handle_key(Key::Char('o'));
    let row = text(&draw_item_list(&app, SafetyClass::Unclassified)[0]);
    assert_eq!(row, "    4.0K  override        /home/me/x   · why");
}

#[test]
fn the_detail_line() {
    let mut app = state();
    assert_eq!(
        text(&draw_detail(&app)),
        " Group: Cache · 2 Items · 2.5K reclaimable · Recovery: cache refills automatically"
    );
    app.handle_key(Key::Enter);
    assert_eq!(text(&draw_detail(&app)), " Recovery: refills automatically on next use");
    app.item_list = None;
    assert_eq!(text(&draw_detail(&app)), " No Items in this group.");
    let empty = AppState::new(Scan { root: DiskPath::new("/"), items: vec![] });
    assert_eq!(text(&draw_detail(&empty)), " No Items surfaced.");
}

#[test]
fn the_overview_bars() {
    let mut app = state();
    assert_eq!(overview_title(&app), " Overview · group size ");
    let bars = texts(&draw_overview(&app, 17, 2));
    assert_eq!(bars, vec!["▶   2.5K █████", "    4.0K ████████"]);
    app.handle_key(Key::Enter);
    assert_eq!(overview_title(&app), " Overview · item size ");
    let bars = texts(&draw_overview(&app, 17, 9));
    assert_eq!(bars, vec!["▶   2.0K ████████", "    512B ██"]);
    // A pane too narrow for bars.
    assert_eq!(texts(&draw_overview(&app, 9, 1)), vec!["▶   2.0K "]);
    assert!(draw_overview(&app, 17, 0).is_empty());
}

#[test]
fn the_item_confirm() {
    let app = state();
    let prompt = draw_confirm(&app, ConfirmTarget::Item { index: 1 }).unwrap();
    assert_eq!((prompt.title, prompt.height), (" Confirm Reclaim ", 9));
    assert_eq!(
        texts(&prompt.lines),
        vec![
            "",
            "  /home/me/.npm",
            "  2.0K   Cache",
            "  Recovery: refills automatically on next use",
            "",
            "  [y] Reclaim    [N] cancel",
        ]
    );
    assert!(draw_confirm(&app, ConfirmTarget::Item { index: 9 }).is_none());
}

#[test]
fn the_group_confirm() {
    let mut app = state();
    let prompt = draw_confirm(&app, ConfirmTarget::Group { class: SafetyClass::Cache }).unwrap();
    assert_eq!((prompt.title, prompt.height), (" Confirm Group Reclaim ", 12));
    assert_eq!(
        texts(&prompt.lines),
        vec![
            "",
            "  Cache group",
            "  Reclaim 2.5K from 2 Items",
            "  Group total: 2.5K across 2 Items",
            "  Recovery: cache refills automatically",
            "  After Confirm, reclaim runs one Item at a time.",
            "  You can stop before the next Item while it runs.",
            "",
            "  [y] Reclaim group    [N] cancel",
        ]
    );
    let unclassified = ConfirmTarget::Group { class: SafetyClass::Unclassified };
    let lines = texts(&draw_confirm(&app, unclassified).unwrap().lines);
    assert_eq!(lines[7], "  Only overridden Items move to Trash.");
    assert_eq!(lines.len(), 10);
    assert!(draw_confirm(&app, ConfirmTarget::Group { class: SafetyClass::Regenerable }).is_none());

    app.handle_key(Key::Char('a'));
    let prompt = draw_confirm(&app, ConfirmTarget::Selection).unwrap();
    assert_eq!(texts(&prompt.lines)[1], "  Reclaim 2.5K from 2 selected Items");
}

#[test]
fn the_reclaiming_panel() {
    let mut app = state();
    app.handle_key(Key::Char('c'));
    app.handle_key(Key::Char('y'));
    let shown = |app: &AppState| {
        texts(&draw_reclaiming(&app.reclaim_job.as_ref().unwrap().progress, 0))
    };
    assert_eq!(
        shown(&app),
        vec![
            "  ⠋ Reclaiming Cache group",
            "  0/2 Items · 0B reclaimed",
            "  Now: Preparing next Item",
            "  [s/Esc] stop after current Item",
        ]
    );
    app.receive(ReclaimMessage::ItemFinished { index: 1, bytes: 2048, result: Ok("x".into()) });
    app.receive(ReclaimMessage::ItemStarted {
        ordinal: 2,
        path: DiskPath::new("/home/me/.yarn"),
        action: "Removing".into(),
    });
    app.handle_key(Key::Esc);
    assert_eq!(
        shown(&app),
        vec![
            "  ⠋ Reclaiming Cache group",
            "  2/2 Items · 2.0K reclaimed",
            "  Now: /home/me/.yarn",
            "  Stop requested · current Item will finish",
        ]
    );
    let mut single = state();
    single.handle_key(Key::Enter);
    single.handle_key(Key::Char('c'));
    single.handle_key(Key::Char('y'));
    assert_eq!(
        shown(&single),
        vec![
            "  ⠋ Reclaiming Item",
            "  Preparing next Item",
            "  Preparing Reclaim",
            "  This may take a while",
        ]
    );
}

#[test]
fn centered_rect_survives_wide_terminal() {
    let area = Area { x: 0, y: 0, width: 4000, height: 50 };
    let r = centered_rect(64, 9, area);
    assert!(r.width <= area.width);
    assert!(r.x + r.width <= area.x + area.width);
    assert!(r.y + r.height <= area.y + area.height);
    assert_eq!(r, Area { x: 720, y: 20, width: 2560, height: 9 });
}

#[test]
fn centered_rect_clamps_to_short_terminal() {
    let area = Area { x: 0, y: 0, width: 80, height: 4 };
    let r = centered_rect(64, 9, area);
    assert!(r.height <= area.height);
    assert!(r.y + r.height <= area.y + area.height);
    assert_eq!(centered_rect(300, 2, area), Area { x: 0, y: 1, width: 80, height: 2 });
}

#[test]
fn the_root_to_scan() {
    let given = || Some(DiskPath::new("/given"));
    let home = || Some(DiskPath::new("/home/me"));
    assert_eq!(resolve_root(true, given(), home()), Ok(DiskPath::new("/")));
    assert_eq!(resolve_root(false, given(), home()), Ok(DiskPath::new("/given")));
    assert_eq!(resolve_root(false, None, home()), Ok(DiskPath::new("/home/me")));
    assert_eq!(resolve_root(false, None, None), Err("HOME is not set; pass --root".to_string()));
    assert_eq!(min_unclassified_bytes(200), 209715200);
    assert_eq!(
        user_rules_path(&DiskPath::new("/home/me")),
        DiskPath::new("/home/me/.config/macclean/rules.toml")
    );
}

#[test]
fn the_rules_to_apply() {
    let path = DiskPath::new("/r.toml");
    let defaults = Ruleset::defaults().rules.len();
    let (rules, warning) = load_ruleset(None, &path);
    assert_eq!((rules.rules.len(), warning), (defaults, None));
    let (rules, warning) = load_ruleset(Some(Err("bad".into())), &path);
    assert_eq!(rules.rules.len(), defaults);
    assert_eq!(warning.as_deref(), Some("warning: ignoring /r.toml: bad"));
    let mine = Ruleset {
        rules: vec![Rule {
            name: "mine".into(),
            matches: Match::DirNamed { dir: "build".into() },
            class: SafetyClass::Regenerable,
            clean_command: None,
            recover_command: None,
            evidence: "mine".into(),
        }],
    };
    let (rules, warning) = load_ruleset(Some(Ok(mine)), &path);
    assert_eq!((rules.rules.len(), warning), (defaults + 1, None));
    assert_eq!(rules.rules[0].name, "mine");
}

#[test]
fn the_printed_scan() {
    let lines = scan_report(&state().scan);
    assert_eq!(
        lines,
        vec![
            "Scan of /home/me",
            "      4.0K  Unclassified    /home/me/x",
            "      2.0K  Cache           /home/me/.npm",
            "      512B  Cache           /home/me/.yarn",
            "      100B  Irreplaceable   /home/me/d.vdi",
            "Reclaimable now: 2.5K",
        ]
    );
}
