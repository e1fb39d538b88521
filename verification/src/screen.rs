//! What stands on the screen: every line the app shows, as coloured spans of text.

use crate::browse;
use crate::groups;
use crate::groups::GroupSummary;
use crate::groups::GroupView;
use crate::model;
use crate::model::Item;
use crate::model::ItemView;
use crate::model::SafetyClass;
use crate::path::DiskPath;
use crate::scan;
use crate::state;
use crate::state::AppState;
use crate::state::Screen;
use crate::state::StateView;
use crate::text;
use vstd::prelude::*;

verus! {

/// A colour.
#[derive(Debug, Clone, Copy, PartialEq, Eq, Structural)]
pub enum Tint {
    Plain,
    Green,
    Cyan,
    Blue,
    LightBlue,
    Magenta,
    Red,
    Yellow,
    Gray,
    DarkGray,
}

/// A stretch of text in one style.
#[derive(Debug)]
pub struct Span {
    pub text: String,
    pub tint: Tint,
    pub bold: bool,
}

/// What a [`Span`] shows.
pub struct SpanView {
    pub text: Seq<char>,
    pub tint: Tint,
    pub bold: bool,
}

impl View for Span {
    type V = SpanView;

    open spec fn view(&self) -> SpanView {
        SpanView { text: self.text@, tint: self.tint, bold: self.bold }
    }
}

/// One line of spans.
#[derive(Debug)]
pub struct Line {
    pub spans: Vec<Span>,
}

impl View for Line {
    type V = Seq<SpanView>;

    open spec fn view(&self) -> Seq<SpanView> {
        Seq::new(self.spans@.len(), |i: int| self.spans@[i]@)
    }
}

/// What lines show.
pub open spec fn lines_view(lines: Seq<Line>) -> Seq<Seq<SpanView>> {
    Seq::new(lines.len(), |i: int| lines[i]@)
}

/// Text without a style.
pub open spec fn plain_of(text: Seq<char>) -> SpanView {
    SpanView { text, tint: Tint::Plain, bold: false }
}

/// Bold text.
pub open spec fn bold_of(text: Seq<char>) -> SpanView {
    SpanView { text, tint: Tint::Plain, bold: true }
}

/// Coloured text.
pub open spec fn tinted_of(text: Seq<char>, tint: Tint) -> SpanView {
    SpanView { text, tint, bold: false }
}

/// Bold coloured text.
pub open spec fn strong_of(text: Seq<char>, tint: Tint) -> SpanView {
    SpanView { text, tint, bold: true }
}

pub(crate) fn plain(text: &str) -> (r: Span)
    ensures
        r@ == plain_of(text@),
{
    Span { text: text.to_owned(), tint: Tint::Plain, bold: false }
}

pub(crate) fn bold(text: &str) -> (r: Span)
    ensures
        r@ == bold_of(text@),
{
    Span { text: text.to_owned(), tint: Tint::Plain, bold: true }
}

pub(crate) fn tinted(text: &str, tint: Tint) -> (r: Span)
    ensures
        r@ == tinted_of(text@, tint),
{
    Span { text: text.to_owned(), tint, bold: false }
}

pub(crate) fn strong(text: &str, tint: Tint) -> (r: Span)
    ensures
        r@ == strong_of(text@, tint),
{
    Span { text: text.to_owned(), tint, bold: true }
}

pub(crate) fn line1(a: Span) -> (r: Line)
    ensures
        r@ == seq![a@],
{
    let line: Line = Line { spans: vec![a] };
    assert(line@ =~= seq![a@]);
    line
}

pub(crate) fn line2(a: Span, b: Span) -> (r: Line)
    ensures
        r@ == seq![a@, b@],
{
    let line: Line = Line { spans: vec![a, b] };
    assert(line@ =~= seq![a@, b@]);
    line
}

pub(crate) fn line3(a: Span, b: Span, c: Span) -> (r: Line)
    ensures
        r@ == seq![a@, b@, c@],
{
    let line: Line = Line { spans: vec![a, b, c] };
    assert(line@ =~= seq![a@, b@, c@]);
    line
}

pub(crate) fn line4(a: Span, b: Span, c: Span, d: Span) -> (r: Line)
    ensures
        r@ == seq![a@, b@, c@, d@],
{
    let line: Line = Line { spans: vec![a, b, c, d] };
    assert(line@ =~= seq![a@, b@, c@, d@]);
    line
}

pub(crate) fn line5(a: Span, b: Span, c: Span, d: Span, e: Span) -> (r: Line)
    ensures
        r@ == seq![a@, b@, c@, d@, e@],
{
    let line: Line = Line { spans: vec![a, b, c, d, e] };
    assert(line@ =~= seq![a@, b@, c@, d@, e@]);
    line
}

/// The colour of a class.
pub open spec fn class_tint(class: SafetyClass) -> Tint {
    match class {
        SafetyClass::Regenerable => Tint::Green,
        SafetyClass::Reinstallable => Tint::Cyan,
        SafetyClass::Cache => Tint::Blue,
        SafetyClass::RedundantCopy => Tint::Magenta,
        SafetyClass::BrowserCache => Tint::LightBlue,
        SafetyClass::Irreplaceable => Tint::Red,
        SafetyClass::Unclassified => Tint::Yellow,
    }
}

/// The colour of a class.
pub fn class_color(class: SafetyClass) -> (r: Tint)
    ensures
        r == class_tint(class),
{
    match class {
        SafetyClass::Regenerable => Tint::Green,
        SafetyClass::Reinstallable => Tint::Cyan,
        SafetyClass::Cache => Tint::Blue,
        SafetyClass::RedundantCopy => Tint::Magenta,
        SafetyClass::BrowserCache => Tint::LightBlue,
        SafetyClass::Irreplaceable => Tint::Red,
        SafetyClass::Unclassified => Tint::Yellow,
    }
}

/// The picture of a spinner at a tick.
pub open spec fn spinner_text(tick: nat) -> Seq<char> {
    let frame = tick % 10;
    if frame == 0 {
        "⠋"@
    } else if frame == 1 {
        "⠙"@
    } else if frame == 2 {
        "⠹"@
    } else if frame == 3 {
        "⠸"@
    } else if frame == 4 {
        "⠼"@
    } else if frame == 5 {
        "⠴"@
    } else if frame == 6 {
        "⠦"@
    } else if frame == 7 {
        "⠧"@
    } else if frame == 8 {
        "⠇"@
    } else {
        "⠏"@
    }
}

/// The picture of a spinner.
pub fn spinner(tick: usize) -> (r: &'static str)
    ensures
        r@ == spinner_text(tick as nat),
{
    let frame: usize = tick % 10;
    if frame == 0 {
        "⠋"
    } else if frame == 1 {
        "⠙"
    } else if frame == 2 {
        "⠹"
    } else if frame == 3 {
        "⠸"
    } else if frame == 4 {
        "⠼"
    } else if frame == 5 {
        "⠴"
    } else if frame == 6 {
        "⠦"
    } else if frame == 7 {
        "⠧"
    } else if frame == 8 {
        "⠇"
    } else {
        "⠏"
    }
}

/// The first line while a Scan runs.
pub open spec fn loading_header_of(root: Seq<u8>) -> Seq<SpanView> {
    seq![
        bold_of(" "@ + text::lossy_utf8(root) + "  "@),
        tinted_of("· scanning filesystem"@, Tint::Yellow),
    ]
}

/// The panel while a Scan runs.
pub open spec fn loading_panel_of(seconds: nat, tick: nat) -> Seq<Seq<SpanView>> {
    seq![
        seq![plain_of(""@)],
        seq![
            plain_of("  "@),
            strong_of(spinner_text(tick), Tint::Yellow),
            plain_of(" Scan running for "@ + text::decimal(seconds) + "s"@),
        ],
        seq![plain_of(""@)],
        seq![
            plain_of(
                "  Large dependency trees and VM/data directories can take a while to size."@,
            ),
        ],
    ]
}

/// The first line while a Scan runs.
pub fn loading_header(root: &DiskPath) -> (r: Line)
    ensures
        r@ == loading_header_of(root@),
{
    let shown: String = " ".to_owned().concat(root.display().as_str()).concat("  ");
    line2(bold(shown.as_str()), tinted("· scanning filesystem", Tint::Yellow))
}

/// The panel while a Scan runs.
pub fn draw_loading(seconds: u64, tick: usize) -> (r: Vec<Line>)
    ensures
        lines_view(r@) == loading_panel_of(seconds as nat, tick as nat),
{
    let running: String = " Scan running for ".to_owned().concat(
        text::decimal_text(seconds).as_str(),
    ).concat("s");
    let lines: Vec<Line> = vec![
        line1(plain("")),
        line3(plain("  "), strong(spinner(tick), Tint::Yellow), plain(running.as_str())),
        line1(plain("")),
        line1(
            plain("  Large dependency trees and VM/data directories can take a while to size."),
        ),
    ];
    assert(lines_view(lines@) =~= loading_panel_of(seconds as nat, tick as nat));
    lines
}

/// The first line of the app.
pub open spec fn header_of(st: StateView) -> Seq<SpanView> {
    seq![
        bold_of(" "@ + text::lossy_utf8(st.root) + "  "@),
        tinted_of(
            "· reclaimable now: "@ + scan::human_text(model::reclaimable_size(st.items)),
            Tint::Green,
        ),
    ]
}

/// What a group row says of reclaiming the group.
pub open spec fn group_action(group: GroupView) -> SpanView {
    if group.reclaimable_count > 0 {
        strong_of(
            text::padded_left(scan::human_text(group.reclaimable_bytes), 8) + " reclaimable"@,
            Tint::Green,
        )
    } else if group.class == SafetyClass::Irreplaceable {
        strong_of("Protected"@, Tint::Red)
    } else if model::override_class(group.class) {
        tinted_of("needs override"@, Tint::Yellow)
    } else {
        tinted_of("nothing reclaimable"@, Tint::Gray)
    }
}

/// The row of a group.
pub open spec fn group_row(group: GroupView) -> Seq<SpanView> {
    seq![
        strong_of(
            text::padded_right(model::class_label(group.class), 20),
            class_tint(group.class),
        ),
        bold_of(text::padded_left(scan::human_text(group.total_bytes), 8) + " total  "@),
        plain_of(
            text::padded_left(text::decimal(group.count), 3) + " "@ + state::item_word_text(
                group.count,
            ) + "  "@,
        ),
        group_action(group),
    ]
}

/// What the row of an Item says of its class.
pub open spec fn badge(item: ItemView) -> Seq<char> {
    if model::override_class(item.class) && item.overridden {
        "override"@
    } else {
        model::class_label(item.class)
    }
}

/// The row of an Item, marked where it is in the selection.
pub open spec fn item_row(item: ItemView, ticked: bool) -> Seq<SpanView> {
    let row = seq![
        bold_of(text::padded_left(scan::human_text(item.size), 8) + "  "@),
        strong_of(text::padded_right(badge(item), 16), class_tint(item.class)),
        plain_of(text::lossy_utf8(item.path)),
        tinted_of("   · "@ + item.evidence, Tint::DarkGray),
    ];
    if ticked {
        seq![strong_of("✓ "@, Tint::Green)] + row
    } else {
        row
    }
}

/// The line about what is highlighted.
pub open spec fn detail_of(st: StateView) -> Seq<SpanView> {
    match st.screen {
        Screen::Groups => match st.group() {
            Some(group) => seq![
                bold_of(" Group: "@),
                strong_of(model::class_label(group.class), class_tint(group.class)),
                plain_of(
                    " · "@ + text::decimal(group.count) + " "@ + state::item_word_text(
                        group.count,
                    ) + " · "@ + scan::human_text(group.reclaimable_bytes) + " reclaimable · "@
                        + state::recovery_hint(group.class),
                ),
            ],
            None => seq![plain_of(" No Items surfaced."@)],
        },
        Screen::Items { .. } => match st.item_place() {
            Some(i) => seq![
                bold_of(" Recovery: "@),
                tinted_of(st.items[i].recovery_line(), class_tint(st.items[i].class)),
            ],
            None => seq![plain_of(" No Items in this group."@)],
        },
    }
}

/// The first line of the app.
pub fn header_line(app: &AppState) -> (r: Line)
    requires
        app@.valid(),
    ensures
        r@ == header_of(app@),
{
    proof {
        groups::lemma_filter_size(app@.items, |item: ItemView| item.may_reclaim());
    }
    let shown: String = " ".to_owned().concat(app.scan.root.display().as_str()).concat("  ");
    let total: String = "· reclaimable now: ".to_owned().concat(
        scan::human(app.scan.reclaimable_bytes()).as_str(),
    );
    line2(bold(shown.as_str()), tinted(total.as_str(), Tint::Green))
}

fn group_action_span(group: &GroupSummary) -> (r: Span)
    ensures
        r@ == group_action(group@),
{
    if group.reclaimable_count > 0 {
        let shown: String = text::pad_left(
            scan::human(group.reclaimable_bytes).as_str(),
            8,
        ).concat(" reclaimable");
        strong(shown.as_str(), Tint::Green)
    } else if group.class == SafetyClass::Irreplaceable {
        strong("Protected", Tint::Red)
    } else if group.class.needs_override() {
        tinted("needs override", Tint::Yellow)
    } else {
        tinted("nothing reclaimable", Tint::Gray)
    }
}

fn group_row_line(group: &GroupSummary) -> (r: Line)
    ensures
        r@ == group_row(group@),
{
    let label: String = text::pad_right(group.class.label(), 20);
    let total: String = text::pad_left(scan::human(group.total_bytes).as_str(), 8).concat(
        " total  ",
    );
    let count: String = text::pad_left(text::count_text(group.count).as_str(), 3).concat(
        " ",
    ).concat(browse::item_word(group.count)).concat("  ");
    line4(
        strong(label.as_str(), class_color(group.class)),
        bold(total.as_str()),
        plain(count.as_str()),
        group_action_span(group),
    )
}

/// The rows of the groups.
pub fn draw_group_list(app: &AppState) -> (r: Vec<Line>)
    requires
        app@.valid(),
    ensures
        lines_view(r@) == groups::groups(app@.items).map_values(|g: GroupView| group_row(g)),
{
    let all: Vec<GroupSummary> = groups::group_summaries(&app.scan);
    let ghost views = groups::groups(app@.items);
    let ghost want = views.map_values(|g: GroupView| group_row(g));
    let mut rows: Vec<Line> = Vec::new();
    let mut i: usize = 0;
    while i < all.len()
        invariant
            i <= all@.len(),
            views == groups::group_views(all@),
            want == views.map_values(|g: GroupView| group_row(g)),
            lines_view(rows@) == want.take(i as int),
        decreases all@.len() - i,
    {
        let ghost before = rows@;
        rows.push(group_row_line(&all[i]));
        assert(views[i as int] == all@[i as int]@);
        assert(lines_view(rows@) =~= lines_view(before).push(rows@.last()@));
        assert(want.take(i + 1) =~= want.take(i as int).push(want[i as int]));
        i = i + 1;
    }
    assert(want.take(want.len() as int) =~= want);
    rows
}

fn item_row_line(item: &Item, ticked: bool) -> (r: Line)
    ensures
        r@ == item_row(item@, ticked),
{
    let size: String = text::pad_left(scan::human(item.size_on_disk).as_str(), 8).concat("  ");
    let shown: &str = if item.class.needs_override() && item.override_reclaim {
        "override"
    } else {
        item.class.label()
    };
    let class: String = text::pad_right(shown, 16);
    let path: String = item.path.display();
    let evidence: String = "   · ".to_owned().concat(item.evidence.summary.as_str());
    let size: Span = bold(size.as_str());
    let class: Span = strong(class.as_str(), class_color(item.class));
    let path: Span = plain(path.as_str());
    let evidence: Span = tinted(evidence.as_str(), Tint::DarkGray);
    if ticked {
        let line: Line = line5(strong("✓ ", Tint::Green), size, class, path, evidence);
        assert(line@ =~= item_row(item@, ticked));
        line
    } else {
        line4(size, class, path, evidence)
    }
}

/// The rows of the Items of a class.
pub open spec fn item_rows_of(st: StateView, class: SafetyClass) -> Seq<Seq<SpanView>> {
    groups::places_of(st.items, class).map_values(
        |i: int| item_row(st.items[i], st.ticked[i]),
    )
}

/// The rows of the Items of a class.
pub fn draw_item_list(app: &AppState, class: SafetyClass) -> (r: Vec<Line>)
    requires
        app@.valid(),
    ensures
        lines_view(r@) == item_rows_of(app@, class),
{
    let places: Vec<usize> = groups::item_indices_for_class(&app.scan, class);
    let ghost st = app@;
    let ghost seen = places@.map_values(|i: usize| i as int);
    let ghost want = item_rows_of(st, class);
    proof {
        groups::law_places_of_a_class(st.items, class);
    }
    let mut rows: Vec<Line> = Vec::new();
    let mut k: usize = 0;
    while k < places.len()
        invariant
            k <= places@.len(),
            st == app@,
            st.valid(),
            seen == places@.map_values(|i: usize| i as int),
            seen == groups::places_of(st.items, class),
            forall|j: int| 0 <= j < seen.len() ==> 0 <= #[trigger] seen[j] < st.items.len(),
            want == item_rows_of(st, class),
            lines_view(rows@) == want.take(k as int),
        decreases places@.len() - k,
    {
        let ghost before = rows@;
        let i: usize = places[k];
        assert(seen[k as int] == i);
        assert(st.items[i as int] == app.scan.items@[i as int]@);
        rows.push(item_row_line(&app.scan.items[i], app.ticked[i]));
        assert(lines_view(rows@) =~= lines_view(before).push(rows@.last()@));
        assert(want.take(k + 1) =~= want.take(k as int).push(want[k as int]));
        k = k + 1;
    }
    assert(want.take(want.len() as int) =~= want);
    rows
}

/// The title of the list of Items of a class.
pub fn item_list_title(class: SafetyClass) -> (r: String)
    ensures
        r@ == " "@ + model::class_label(class) + " Items "@,
{
    " ".to_owned().concat(class.label()).concat(" Items ")
}

/// The line about what is highlighted.
pub fn draw_detail(app: &AppState) -> (r: Line)
    requires
        app@.valid(),
    ensures
        r@ == detail_of(app@),
{
    match app.screen {
        Screen::Groups => match app.selected_group_summary() {
            Some(group) => {
                let rest: String = " · ".to_owned().concat(
                    text::count_text(group.count).as_str(),
                ).concat(" ").concat(browse::item_word(group.count)).concat(" · ").concat(
                    scan::human(group.reclaimable_bytes).as_str(),
                ).concat(" reclaimable · ").concat(browse::class_recovery_hint(group.class));
                line3(
                    bold(" Group: "),
                    strong(group.class.label(), class_color(group.class)),
                    plain(rest.as_str()),
                )
            },
            None => line1(plain(" No Items surfaced.")),
        },
        Screen::Items { .. } => match app.selected_item_index() {
            Some(i) => {
                assert(app@.items[i as int] == app.scan.items@[i as int]@);
                line2(
                    bold(" Recovery: "),
                    tinted(
                        app.scan.items[i].recovery_line().as_str(),
                        class_color(app.scan.items[i].class),
                    ),
                )
            },
            None => line1(plain(" No Items in this group.")),
        },
    }
}

/// The row of an Item always shows the evidence, and says in words, not in colour
/// alone, what class the Item has or that it was overridden.
pub proof fn law_class_and_evidence_are_shown(item: ItemView, ticked: bool)
    ensures
        item_row(item, ticked).last().text == "   · "@ + item.evidence,
        item_row(item, ticked)[item_row(item, ticked).len() - 3].text == text::padded_right(
            badge(item),
            16,
        ),
{
}

/// What a line says, its spans one after the other.
pub open spec fn spoken(line: Seq<SpanView>) -> Seq<char>
    decreases line.len(),
{
    if line.len() == 0 {
        Seq::empty()
    } else {
        spoken(line.drop_last()) + line.last().text
    }
}

pub proof fn lemma_spoken(line: Seq<SpanView>, span: SpanView)
    ensures
        spoken(Seq::empty()) == Seq::<char>::empty(),
        spoken(line.push(span)) == spoken(line) + span.text,
{
    assert(line.push(span).drop_last() =~= line);
}

/// The row of a group says its class, its total size, how many Items it has, and how
/// much of it may be reclaimed, or why nothing may be.
pub proof fn law_a_group_row_says_its_numbers(group: GroupView)
    ensures
        spoken(group_row(group)) == text::padded_right(model::class_label(group.class), 20) + (
        text::padded_left(scan::human_text(group.total_bytes), 8) + " total  "@) + (
        text::padded_left(text::decimal(group.count), 3) + " "@ + (if group.count == 1 {
            "Item"@
        } else {
            "Items"@
        }) + "  "@) + (if group.reclaimable_count > 0 {
            text::padded_left(scan::human_text(group.reclaimable_bytes), 8) + " reclaimable"@
        } else if group.class == SafetyClass::Irreplaceable {
            "Protected"@
        } else if group.class == SafetyClass::Unclassified || group.class
            == SafetyClass::BrowserCache {
            "needs override"@
        } else {
            "nothing reclaimable"@
        }),
{
    let row = group_row(group);
    let none = Seq::<SpanView>::empty();
    lemma_spoken(none, row[0]);
    lemma_spoken(none.push(row[0]), row[1]);
    lemma_spoken(none.push(row[0]).push(row[1]), row[2]);
    lemma_spoken(none.push(row[0]).push(row[1]).push(row[2]), row[3]);
    assert(row =~= none.push(row[0]).push(row[1]).push(row[2]).push(row[3]));
    assert(Seq::<char>::empty() + row[0].text =~= row[0].text);
}

/// The row of an Item says its size, its class or that it was overridden, its path
/// and the evidence; a mark in front says that it is selected.
pub proof fn law_an_item_row_says_what_it_is(item: ItemView, ticked: bool)
    ensures
        spoken(item_row(item, ticked)) == (if ticked {
            "✓ "@
        } else {
            Seq::empty()
        }) + (text::padded_left(scan::human_text(item.size), 8) + "  "@) + text::padded_right(
            if item.overridden && (item.class == SafetyClass::Unclassified || item.class
                == SafetyClass::BrowserCache) {
                "override"@
            } else {
                model::class_label(item.class)
            },
            16,
        ) + text::lossy_utf8(item.path) + ("   · "@ + item.evidence),
{
    let row = item_row(item, ticked);
    let none = Seq::<SpanView>::empty();
    lemma_spoken(none, row[0]);
    lemma_spoken(none.push(row[0]), row[1]);
    lemma_spoken(none.push(row[0]).push(row[1]), row[2]);
    lemma_spoken(none.push(row[0]).push(row[1]).push(row[2]), row[3]);
    if ticked {
        lemma_spoken(none.push(row[0]).push(row[1]).push(row[2]).push(row[3]), row[4]);
        assert(row =~= none.push(row[0]).push(row[1]).push(row[2]).push(row[3]).push(row[4]));
    } else {
        assert(row =~= none.push(row[0]).push(row[1]).push(row[2]).push(row[3]));
    }
    assert(Seq::<char>::empty() + row[0].text =~= row[0].text);
    assert(Seq::<char>::empty() + (text::padded_left(scan::human_text(item.size), 8) + "  "@)
        =~= text::padded_left(scan::human_text(item.size), 8) + "  "@);
}

/// The first line says which root was scanned and how much of it may be reclaimed
/// now.
pub proof fn law_the_header_says_what_is_reclaimable(st: StateView)
    ensures
        spoken(header_of(st)) == (" "@ + text::lossy_utf8(st.root) + "  "@) + (
        "· reclaimable now: "@ + scan::human_text(model::reclaimable_size(st.items))),
{
    let line = header_of(st);
    let none = Seq::<SpanView>::empty();
    lemma_spoken(none, line[0]);
    lemma_spoken(none.push(line[0]), line[1]);
    assert(line =~= none.push(line[0]).push(line[1]));
    assert(Seq::<char>::empty() + line[0].text =~= line[0].text);
}

/// The line below the list says of the highlighted Item how it comes back, and of the
/// highlighted group how many Items it has and how much of it may be reclaimed.
pub proof fn law_the_detail_is_about_the_highlight(st: StateView)
    ensures
        match st.screen {
            Screen::Items { .. } => match st.item_place() {
                Some(i) => spoken(detail_of(st)) == " Recovery: "@ + st.items[i].recovery_line(),
                None => spoken(detail_of(st)) == " No Items in this group."@,
            },
            Screen::Groups => match st.group() {
                Some(group) => spoken(detail_of(st)) == " Group: "@ + model::class_label(
                    group.class,
                ) + (" · "@ + text::decimal(group.count) + " "@ + (if group.count == 1 {
                    "Item"@
                } else {
                    "Items"@
                }) + " · "@ + scan::human_text(group.reclaimable_bytes) + " reclaimable · "@
                    + state::recovery_hint(group.class)),
                None => spoken(detail_of(st)) == " No Items surfaced."@,
            },
        },
{
    let line = detail_of(st);
    let none = Seq::<SpanView>::empty();
    lemma_spoken(none, line[0]);
    lemma_spoken(none.push(line[0]), line[1]);
    lemma_spoken(none.push(line[0]).push(line[1]), line[2]);
    assert(Seq::<char>::empty() + line[0].text =~= line[0].text);
    if line.len() == 1 {
        assert(line =~= none.push(line[0]));
    } else if line.len() == 2 {
        assert(line =~= none.push(line[0]).push(line[1]));
    } else {
        assert(line =~= none.push(line[0]).push(line[1]).push(line[2]));
    }
}

/// The list of a group has one row for each Item of its class, in their order, marked
/// if the Item is selected.
pub proof fn law_the_list_shows_each_item_once(st: StateView, class: SafetyClass, k: int)
    requires
        0 <= k < groups::group_of(st.items, class).count,
    ensures
        item_rows_of(st, class).len() == groups::group_of(st.items, class).count,
        ({
            let i = groups::places_of(st.items, class)[k];
            &&& 0 <= i < st.items.len() && st.items[i].class == class
            &&& item_rows_of(st, class)[k] == item_row(st.items[i], st.ticked[i])
        }),
{
    groups::law_places_of_a_class(st.items, class);
}

/// Each class has a colour of its own.
pub proof fn law_colours_tell_classes_apart(a: SafetyClass, b: SafetyClass)
    requires
        a != b,
    ensures
        class_tint(a) != class_tint(b),
        a == SafetyClass::Irreplaceable ==> class_tint(a) == Tint::Red,
        a == SafetyClass::Unclassified ==> class_tint(a) == Tint::Yellow,
        a == SafetyClass::Regenerable ==> class_tint(a) == Tint::Green,
        a == SafetyClass::Reinstallable ==> class_tint(a) == Tint::Cyan,
        a == SafetyClass::Cache ==> class_tint(a) == Tint::Blue,
        a == SafetyClass::RedundantCopy ==> class_tint(a) == Tint::Magenta,
{
}

/// While a Scan runs the screen says of what, and for how long it has run.
pub proof fn law_a_running_scan_says_how_long(root: Seq<u8>, seconds: nat, tick: nat)
    ensures
        spoken(loading_header_of(root)) == (" "@ + text::lossy_utf8(root) + "  "@)
            + "· scanning filesystem"@,
        loading_panel_of(seconds, tick)[1].last().text == " Scan running for "@ + text::decimal(
            seconds,
        ) + "s"@,
        spinner_text(tick + 10) == spinner_text(tick),
{
    let line = loading_header_of(root);
    let none = Seq::<SpanView>::empty();
    lemma_spoken(none, line[0]);
    lemma_spoken(none.push(line[0]), line[1]);
    assert(line =~= none.push(line[0]).push(line[1]));
    assert(Seq::<char>::empty() + line[0].text =~= line[0].text);
}

} // verus!
