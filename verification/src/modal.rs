//! What floats over the list: the Confirm prompts and the progress of a running
//! Reclaim.

use crate::browse;
use crate::groups;
use crate::groups::GroupSummary;
use crate::groups::GroupView;
use crate::job::ProgressView;
use crate::job::ReclaimProgress;
use crate::model;
use crate::model::Item;
use crate::model::ItemView;
use crate::model::SafetyClass;
use crate::scan;
use crate::screen;
use crate::screen::Line;
use crate::screen::SpanView;
use crate::screen::Tint;
use crate::state;
use crate::state::AppState;
use crate::state::ConfirmTarget;
use crate::state::StateView;
use crate::text;
use vstd::prelude::*;

verus! {

/// A part of the screen.
#[derive(Debug, Clone, Copy, PartialEq, Eq, Structural)]
pub struct Area {
    pub x: u16,
    pub y: u16,
    pub width: u16,
    pub height: u16,
}

/// `width` cut to `percent` of it, never more than the whole.
pub open spec fn share_of_width(width: nat, percent: nat) -> nat {
    if width * percent / 100 < width {
        width * percent / 100
    } else {
        width
    }
}

/// How far in something of `inner` lies that is centred in `outer`.
pub open spec fn margin(outer: nat, inner: nat) -> nat {
    if outer > inner {
        ((outer - inner) / 2) as nat
    } else {
        0
    }
}

/// A horizontally-centered rectangle `percent_x` wide and `height` tall, clamped
/// to `area`. The width is worked out in more bits than a column count has, so a
/// wide terminal cannot overflow it.
pub fn centered_rect(percent_x: u16, height: u16, area: Area) -> (r: Area)
    requires
        area.x + margin(
            area.width as nat,
            share_of_width(area.width as nat, percent_x as nat),
        ) <= u16::MAX,
        area.y + margin(area.height as nat, height as nat) <= u16::MAX,
    ensures
        r.width == share_of_width(area.width as nat, percent_x as nat),
        r.height == if height < area.height {
            height
        } else {
            area.height
        },
        r.x == area.x + margin(area.width as nat, r.width as nat),
        r.y == area.y + margin(area.height as nat, height as nat),
{
    assert((area.width as u32) * (percent_x as u32) <= 0xffff * 0xffff) by (nonlinear_arith)
        requires
            area.width <= 0xffff,
            percent_x <= 0xffff,
    ;
    let share: u32 = (area.width as u32) * (percent_x as u32) / 100;
    let width: u16 = if share < area.width as u32 {
        share as u16
    } else {
        area.width
    };
    let left: u16 = if area.width > width {
        (area.width - width) / 2
    } else {
        0
    };
    let top: u16 = if area.height > height {
        (area.height - height) / 2
    } else {
        0
    };
    Area {
        x: area.x + left,
        y: area.y + top,
        width,
        height: if height < area.height {
            height
        } else {
            area.height
        },
    }
}

/// A centred rectangle lies inside its area.
pub proof fn law_centred_rect_fits(percent_x: nat, height: nat, area: Area)
    ensures
        margin(
            area.width as nat,
            share_of_width(area.width as nat, percent_x),
        ) + share_of_width(area.width as nat, percent_x) <= area.width,
        margin(area.height as nat, height) + (if height < area.height {
            height
        } else {
            area.height as nat
        }) <= area.height,
{
}

/// The last line of a Confirm prompt.
pub open spec fn confirm_keys(what: Seq<char>) -> Seq<SpanView> {
    seq![
        screen::plain_of("  "@),
        screen::strong_of("[y]"@, Tint::Green),
        screen::plain_of(what),
        screen::strong_of("[N]"@, Tint::Red),
        screen::plain_of(" cancel"@),
    ]
}

fn confirm_keys_line(what: &str) -> (r: Line)
    ensures
        r@ == confirm_keys(what@),
{
    screen::line5(
        screen::plain("  "),
        screen::strong("[y]", Tint::Green),
        screen::plain(what),
        screen::strong("[N]", Tint::Red),
        screen::plain(" cancel"),
    )
}

/// The class of an Item as the Confirm prompt quotes it.
pub open spec fn quoted_class(item: ItemView) -> Seq<char> {
    if model::override_class(item.class) && item.overridden {
        model::class_label(item.class) + " (override)"@
    } else {
        model::class_label(item.class)
    }
}

/// The Confirm prompt of an Item: quotes its path, size, class, and how it will be
/// recovered.
pub open spec fn item_confirm_of(item: ItemView) -> Seq<Seq<SpanView>> {
    seq![
        seq![screen::plain_of(""@)],
        seq![screen::plain_of("  "@), screen::bold_of(text::lossy_utf8(item.path))],
        seq![
            screen::plain_of("  "@),
            screen::bold_of(scan::human_text(item.size)),
            screen::plain_of("   "@),
            screen::strong_of(quoted_class(item), screen::class_tint(item.class)),
        ],
        seq![
            screen::plain_of("  Recovery: "@),
            screen::tinted_of(item.recovery_line(), Tint::Gray),
        ],
        seq![screen::plain_of(""@)],
        confirm_keys(" Reclaim    "@),
    ]
}

/// The deliberate Confirm prompt of an Item. This is the only gate to deletion.
pub fn draw_item_confirm(item: &Item) -> (r: Vec<Line>)
    ensures
        screen::lines_view(r@) == item_confirm_of(item@),
{
    let class: String = if item.class.needs_override() && item.override_reclaim {
        item.class.label().to_owned().concat(" (override)")
    } else {
        item.class.label().to_owned()
    };
    let lines: Vec<Line> = vec![
        screen::line1(screen::plain("")),
        screen::line2(screen::plain("  "), screen::bold(item.path.display().as_str())),
        screen::line4(
            screen::plain("  "),
            screen::bold(scan::human(item.size_on_disk).as_str()),
            screen::plain("   "),
            screen::strong(class.as_str(), screen::class_color(item.class)),
        ),
        screen::line2(
            screen::plain("  Recovery: "),
            screen::tinted(item.recovery_line().as_str(), Tint::Gray),
        ),
        screen::line1(screen::plain("")),
        confirm_keys_line(" Reclaim    "),
    ];
    assert(screen::lines_view(lines@) =~= item_confirm_of(item@));
    lines
}

/// That a batch runs Item by Item and can be stopped between two.
pub open spec fn batch_notes() -> Seq<Seq<SpanView>> {
    seq![
        seq![screen::plain_of("  After Confirm, reclaim runs one Item at a time."@)],
        seq![screen::plain_of("  You can stop before the next Item while it runs."@)],
    ]
}

/// What becomes of the Items of a group that had to be overridden.
pub open spec fn override_note(class: SafetyClass) -> Seq<Seq<SpanView>> {
    match class {
        SafetyClass::Unclassified => seq![
            seq![screen::plain_of("  Only overridden Items move to Trash."@)],
        ],
        SafetyClass::BrowserCache => seq![
            seq![screen::plain_of("  Only overridden Items are deleted."@)],
        ],
        _ => Seq::empty(),
    }
}

/// The Confirm prompt of a group: quotes the Safety Class, how many currently
/// reclaimable Items will be affected, and the total bytes.
pub open spec fn group_confirm_of(group: GroupView) -> Seq<Seq<SpanView>> {
    seq![
        seq![screen::plain_of(""@)],
        seq![
            screen::plain_of("  "@),
            screen::strong_of(
                model::class_label(group.class) + " group"@,
                screen::class_tint(group.class),
            ),
        ],
        seq![
            screen::plain_of("  Reclaim "@),
            screen::bold_of(scan::human_text(group.reclaimable_bytes)),
            screen::plain_of(
                " from "@ + text::decimal(group.reclaimable_count) + " "@ + state::item_word_text(
                    group.reclaimable_count,
                ),
            ),
        ],
        seq![
            screen::plain_of("  Group total: "@),
            screen::tinted_of(scan::human_text(group.total_bytes), Tint::Gray),
            screen::plain_of(
                " across "@ + text::decimal(group.count) + " "@ + state::item_word_text(
                    group.count,
                ),
            ),
        ],
        seq![
            screen::plain_of("  "@),
            screen::tinted_of(state::recovery_hint(group.class), Tint::Gray),
        ],
    ] + batch_notes() + override_note(group.class) + seq![
        seq![screen::plain_of(""@)],
        confirm_keys(" Reclaim group    "@),
    ]
}

/// Group-level Confirm keeps the batch action explicit.
pub fn draw_group_confirm(group: &GroupSummary) -> (r: Vec<Line>)
    ensures
        screen::lines_view(r@) == group_confirm_of(group@),
{
    let name: String = group.class.label().to_owned().concat(" group");
    let from: String = " from ".to_owned().concat(
        text::count_text(group.reclaimable_count).as_str(),
    ).concat(" ").concat(browse::item_word(group.reclaimable_count));
    let across: String = " across ".to_owned().concat(
        text::count_text(group.count).as_str(),
    ).concat(" ").concat(browse::item_word(group.count));
    let mut lines: Vec<Line> = vec![
        screen::line1(screen::plain("")),
        screen::line2(
            screen::plain("  "),
            screen::strong(name.as_str(), screen::class_color(group.class)),
        ),
        screen::line3(
            screen::plain("  Reclaim "),
            screen::bold(scan::human(group.reclaimable_bytes).as_str()),
            screen::plain(from.as_str()),
        ),
        screen::line3(
            screen::plain("  Group total: "),
            screen::tinted(scan::human(group.total_bytes).as_str(), Tint::Gray),
            screen::plain(across.as_str()),
        ),
        screen::line2(
            screen::plain("  "),
            screen::tinted(browse::class_recovery_hint(group.class), Tint::Gray),
        ),
        screen::line1(screen::plain("  After Confirm, reclaim runs one Item at a time.")),
        screen::line1(screen::plain("  You can stop before the next Item while it runs.")),
    ];
    if group.class == SafetyClass::Unclassified {
        lines.push(screen::line1(screen::plain("  Only overridden Items move to Trash.")));
    }
    if group.class == SafetyClass::BrowserCache {
        lines.push(screen::line1(screen::plain("  Only overridden Items are deleted.")));
    }
    lines.push(screen::line1(screen::plain("")));
    lines.push(confirm_keys_line(" Reclaim group    "));
    assert(screen::lines_view(lines@) =~= group_confirm_of(group@));
    lines
}

/// The total size of the ticked Items.
pub open spec fn ticked_size(items: Seq<ItemView>, ticked: Seq<bool>) -> nat
    decreases items.len(),
{
    if items.len() == 0 {
        0
    } else {
        ticked_size(items.drop_last(), ticked) + if ticked[items.len() - 1] {
            items.last().size
        } else {
            0
        }
    }
}

/// The Confirm prompt of the selection.
pub open spec fn selection_confirm_of(st: StateView) -> Seq<Seq<SpanView>> {
    let count = state::tick_count(st.ticked);
    seq![
        seq![screen::plain_of(""@)],
        seq![
            screen::plain_of("  Reclaim "@),
            screen::bold_of(scan::human_text(ticked_size(st.items, st.ticked))),
            screen::plain_of(
                " from "@ + text::decimal(count) + " selected "@ + state::item_word_text(count),
            ),
        ],
    ] + batch_notes() + seq![
        seq![screen::plain_of(""@)],
        confirm_keys(" Reclaim selection    "@),
    ]
}

fn size_ticked(app: &AppState) -> (r: u64)
    requires
        app@.valid(),
    ensures
        r == ticked_size(app@.items, app@.ticked),
{
    let ghost st = app@;
    let mut sum: u64 = 0;
    let mut i: usize = 0;
    assert(ticked_size(st.items.take(0), st.ticked) == 0);
    while i < app.scan.items.len()
        invariant
            i <= app.scan.items@.len(),
            st == app@,
            st.valid(),
            sum == ticked_size(st.items.take(i as int), st.ticked),
            sum <= model::total_size(st.items.take(i as int)),
        decreases app.scan.items@.len() - i,
    {
        proof {
            assert(st.items.take(i + 1).drop_last() =~= st.items.take(i as int));
            assert(st.items.take(i + 1).last() == app.scan.items@[i as int]@);
            groups::lemma_size_prefix(st.items, i + 1);
        }
        if app.ticked[i] {
            sum = sum + app.scan.items[i].size_on_disk;
        }
        i = i + 1;
    }
    assert(st.items.take(st.items.len() as int) =~= st.items);
    sum
}

/// The Confirm prompt of the selection.
pub fn draw_selection_confirm(app: &AppState) -> (r: Vec<Line>)
    requires
        app@.valid(),
    ensures
        screen::lines_view(r@) == selection_confirm_of(app@),
{
    let count: usize = browse::count_ticks(&app.ticked);
    let from: String = " from ".to_owned().concat(text::count_text(count).as_str()).concat(
        " selected ",
    ).concat(browse::item_word(count));
    let lines: Vec<Line> = vec![
        screen::line1(screen::plain("")),
        screen::line3(
            screen::plain("  Reclaim "),
            screen::bold(scan::human(size_ticked(app)).as_str()),
            screen::plain(from.as_str()),
        ),
        screen::line1(screen::plain("  After Confirm, reclaim runs one Item at a time.")),
        screen::line1(screen::plain("  You can stop before the next Item while it runs.")),
        screen::line1(screen::plain("")),
        confirm_keys_line(" Reclaim selection    "),
    ];
    assert(screen::lines_view(lines@) =~= selection_confirm_of(app@));
    lines
}

/// A Confirm prompt: its title, how many rows it takes, and its lines.
#[derive(Debug)]
pub struct Prompt {
    pub title: &'static str,
    pub height: u16,
    pub lines: Vec<Line>,
}

/// Whether `prompt` is the Confirm prompt for `target`. There is none for an Item
/// or a group that is gone.
pub open spec fn prompts_for(
    st: StateView,
    target: ConfirmTarget,
    prompt: Option<Prompt>,
) -> bool {
    match target {
        ConfirmTarget::Item { index } => if index < st.items.len() {
            prompt matches Some(p) && p.title@ == " Confirm Reclaim "@ && p.height == 9
                && screen::lines_view(p.lines@) == item_confirm_of(st.items[index as int])
        } else {
            prompt is None
        },
        ConfirmTarget::Group { class } => if groups::group_of(st.items, class).count > 0 {
            prompt matches Some(p) && p.title@ == " Confirm Group Reclaim "@ && p.height == 12
                && screen::lines_view(p.lines@) == group_confirm_of(
                groups::group_of(st.items, class),
            )
        } else {
            prompt is None
        },
        ConfirmTarget::Selection => {
            prompt matches Some(p) && p.title@ == " Confirm Selection Reclaim "@ && p.height == 9
                && screen::lines_view(p.lines@) == selection_confirm_of(st)
        },
    }
}

/// The Confirm prompt for `target`.
pub fn draw_confirm(app: &AppState, target: ConfirmTarget) -> (r: Option<Prompt>)
    requires
        app@.valid(),
    ensures
        prompts_for(app@, target, r),
{
    match target {
        ConfirmTarget::Item { index } => if index < app.scan.items.len() {
            assert(app@.items[index as int] == app.scan.items@[index as int]@);
            Some(
                Prompt {
                    title: " Confirm Reclaim ",
                    height: 9,
                    lines: draw_item_confirm(&app.scan.items[index]),
                },
            )
        } else {
            None
        },
        ConfirmTarget::Group { class } => {
            let group: GroupSummary = groups::summary_of(&app.scan, class);
            if group.count > 0 {
                Some(
                    Prompt {
                        title: " Confirm Group Reclaim ",
                        height: 12,
                        lines: draw_group_confirm(&group),
                    },
                )
            } else {
                None
            }
        },
        ConfirmTarget::Selection => Some(
            Prompt {
                title: " Confirm Selection Reclaim ",
                height: 9,
                lines: draw_selection_confirm(app),
            },
        ),
    }
}

/// The panel of a running Reclaim.
pub open spec fn reclaiming_of(progress: ProgressView, tick: nat) -> Seq<Seq<SpanView>> {
    let path = match progress.current_path {
        Some(path) => text::lossy_utf8(path),
        None => "Preparing next Item"@,
    };
    let title = seq![
        screen::plain_of("  "@),
        screen::strong_of(screen::spinner_text(tick), Tint::Yellow),
        screen::plain_of(" "@),
        screen::bold_of(progress.title),
    ];
    if progress.total > 1 {
        let ordinal = if progress.current_ordinal > progress.completed {
            progress.current_ordinal
        } else {
            progress.completed
        };
        seq![
            title,
            seq![
                screen::plain_of("  "@),
                screen::bold_of(
                    text::decimal(ordinal) + "/"@ + text::decimal(progress.total) + " Items"@,
                ),
                screen::plain_of(
                    " · "@ + scan::human_text(progress.reclaimed_bytes) + " reclaimed"@,
                ),
            ],
            seq![screen::plain_of("  Now: "@), screen::plain_of(path)],
            if progress.stop_requested {
                seq![
                    screen::plain_of("  "@),
                    screen::strong_of("Stop requested"@, Tint::Yellow),
                    screen::plain_of(" · current Item will finish"@),
                ]
            } else {
                seq![
                    screen::plain_of("  "@),
                    screen::strong_of("[s/Esc]"@, Tint::Yellow),
                    screen::plain_of(" stop after current Item"@),
                ]
            },
        ]
    } else {
        seq![
            title,
            seq![screen::plain_of("  "@), screen::plain_of(path)],
            seq![screen::plain_of("  "@), screen::plain_of(progress.current_action)],
            seq![screen::plain_of("  This may take a while"@)],
        ]
    }
}

/// The panel of a running Reclaim.
pub fn draw_reclaiming(progress: &ReclaimProgress, tick: usize) -> (r: Vec<Line>)
    ensures
        screen::lines_view(r@) == reclaiming_of(progress@, tick as nat),
{
    let path: String = match &progress.current_path {
        Some(path) => path.display(),
        None => "Preparing next Item".to_owned(),
    };
    let title: Line = screen::line4(
        screen::plain("  "),
        screen::strong(screen::spinner(tick), Tint::Yellow),
        screen::plain(" "),
        screen::bold(progress.title.as_str()),
    );
    let lines: Vec<Line> = if progress.total > 1 {
        let ordinal: usize = if progress.current_ordinal > progress.completed {
            progress.current_ordinal
        } else {
            progress.completed
        };
        let count: String = text::count_text(ordinal).concat("/").concat(
            text::count_text(progress.total).as_str(),
        ).concat(" Items");
        let bytes: String = " · ".to_owned().concat(
            scan::human(progress.reclaimed_bytes).as_str(),
        ).concat(" reclaimed");
        vec![
            title,
            screen::line3(
                screen::plain("  "),
                screen::bold(count.as_str()),
                screen::plain(bytes.as_str()),
            ),
            screen::line2(screen::plain("  Now: "), screen::plain(path.as_str())),
            if progress.stop_requested {
                screen::line3(
                    screen::plain("  "),
                    screen::strong("Stop requested", Tint::Yellow),
                    screen::plain(" · current Item will finish"),
                )
            } else {
                screen::line3(
                    screen::plain("  "),
                    screen::strong("[s/Esc]", Tint::Yellow),
                    screen::plain(" stop after current Item"),
                )
            },
        ]
    } else {
        vec![
            title,
            screen::line2(screen::plain("  "), screen::plain(path.as_str())),
            screen::line2(screen::plain("  "), screen::plain(progress.current_action.as_str())),
            screen::line1(screen::plain("  This may take a while")),
        ]
    };
    assert(screen::lines_view(lines@) =~= reclaiming_of(progress@, tick as nat));
    lines
}

/// The prompt of an Item names the very path that will be reclaimed, its size, its
/// class, how it comes back, and the keys.
pub proof fn law_the_prompt_of_an_item_names_it(item: ItemView)
    ensures
        item_confirm_of(item).len() == 6,
        screen::spoken(item_confirm_of(item)[1]) == "  "@ + text::lossy_utf8(item.path),
        screen::spoken(item_confirm_of(item)[2]) == "  "@ + scan::human_text(item.size) + "   "@
            + (if item.overridden && (item.class == SafetyClass::Unclassified || item.class
            == SafetyClass::BrowserCache) {
            model::class_label(item.class) + " (override)"@
        } else {
            model::class_label(item.class)
        }),
        screen::spoken(item_confirm_of(item)[3]) == "  Recovery: "@ + item.recovery_line(),
        screen::spoken(item_confirm_of(item)[5]) == "  "@ + "[y]"@ + " Reclaim    "@ + "[N]"@
            + " cancel"@,
{
    let lines = item_confirm_of(item);
    lemma_spoken_lines(lines[1]);
    lemma_spoken_lines(lines[2]);
    lemma_spoken_lines(lines[3]);
    lemma_spoken_lines(lines[5]);
}

proof fn lemma_spoken_lines(line: Seq<SpanView>)
    ensures
        line.len() == 2 ==> screen::spoken(line) == line[0].text + line[1].text,
        line.len() == 3 ==> screen::spoken(line) == line[0].text + line[1].text + line[2].text,
        line.len() == 4 ==> screen::spoken(line) == line[0].text + line[1].text + line[2].text
            + line[3].text,
        line.len() == 5 ==> screen::spoken(line) == line[0].text + line[1].text + line[2].text
            + line[3].text + line[4].text,
{
    let none = Seq::<SpanView>::empty();
    screen::lemma_spoken(none, line[0]);
    screen::lemma_spoken(none.push(line[0]), line[1]);
    screen::lemma_spoken(none.push(line[0]).push(line[1]), line[2]);
    screen::lemma_spoken(none.push(line[0]).push(line[1]).push(line[2]), line[3]);
    screen::lemma_spoken(
        none.push(line[0]).push(line[1]).push(line[2]).push(line[3]),
        line[4],
    );
    assert(Seq::<char>::empty() + line[0].text =~= line[0].text);
    if line.len() == 2 {
        assert(line =~= none.push(line[0]).push(line[1]));
    } else if line.len() == 3 {
        assert(line =~= none.push(line[0]).push(line[1]).push(line[2]));
    } else if line.len() == 4 {
        assert(line =~= none.push(line[0]).push(line[1]).push(line[2]).push(line[3]));
    } else if line.len() == 5 {
        assert(line =~= none.push(line[0]).push(line[1]).push(line[2]).push(line[3]).push(line[4]));
    }
}

/// The prompt of a group quotes how much will be reclaimed from how many Items, which
/// is what may be reclaimed and not the whole of the group; the whole is quoted
/// beside it.
pub proof fn law_the_prompt_of_a_group_quotes_its_numbers(group: GroupView)
    ensures
        screen::spoken(group_confirm_of(group)[1]) == "  "@ + (model::class_label(group.class)
            + " group"@),
        screen::spoken(group_confirm_of(group)[2]) == "  Reclaim "@ + scan::human_text(
            group.reclaimable_bytes,
        ) + (" from "@ + text::decimal(group.reclaimable_count) + " "@ + (
        if group.reclaimable_count == 1 {
            "Item"@
        } else {
            "Items"@
        })),
        screen::spoken(group_confirm_of(group)[3]) == "  Group total: "@ + scan::human_text(
            group.total_bytes,
        ) + (" across "@ + text::decimal(group.count) + " "@ + (if group.count == 1 {
            "Item"@
        } else {
            "Items"@
        })),
        screen::spoken(group_confirm_of(group).last()) == "  "@ + "[y]"@ + " Reclaim group    "@
            + "[N]"@ + " cancel"@,
{
    let lines = group_confirm_of(group);
    lemma_spoken_lines(lines[1]);
    lemma_spoken_lines(lines[2]);
    lemma_spoken_lines(lines[3]);
    lemma_spoken_lines(confirm_keys(" Reclaim group    "@));
    assert(lines.last() == confirm_keys(" Reclaim group    "@));
}

/// The prompt of the selection quotes how much will be reclaimed from how many
/// selected Items.
pub proof fn law_the_prompt_of_the_selection_quotes_its_numbers(st: StateView)
    ensures
        ({
            let count = state::tick_count(st.ticked);
            screen::spoken(selection_confirm_of(st)[1]) == "  Reclaim "@ + scan::human_text(
                ticked_size(st.items, st.ticked),
            ) + (" from "@ + text::decimal(count) + " selected "@ + (if count == 1 {
                "Item"@
            } else {
                "Items"@
            }))
        }),
{
    lemma_spoken_lines(selection_confirm_of(st)[1]);
}

/// One more tick counts one more, with the size of its Item; what is not ticked does
/// not count.
pub proof fn law_ticks_are_counted(
    items: Seq<ItemView>,
    ticked: Seq<bool>,
    item: ItemView,
    tick: bool,
)
    requires
        items.len() == ticked.len(),
    ensures
        state::tick_count(Seq::empty()) == 0,
        state::tick_count(ticked.push(tick)) == state::tick_count(ticked) + if tick {
            1nat
        } else {
            0
        },
        ticked_size(Seq::empty(), Seq::empty()) == 0,
        ticked_size(items.push(item), ticked.push(tick)) == ticked_size(items, ticked) + if tick {
            item.size
        } else {
            0
        },
{
    assert(ticked.push(tick).drop_last() =~= ticked);
    assert(items.push(item).drop_last() =~= items);
    lemma_ticked_prefix(items, ticked, tick);
}

proof fn lemma_ticked_prefix(items: Seq<ItemView>, ticked: Seq<bool>, tick: bool)
    requires
        items.len() <= ticked.len(),
    ensures
        ticked_size(items, ticked.push(tick)) == ticked_size(items, ticked),
    decreases items.len(),
{
    if items.len() > 0 {
        lemma_ticked_prefix(items.drop_last(), ticked, tick);
    }
}

/// A rectangle that is centred leaves as much room before it as behind it, but for
/// one cell, and takes its share of the width, rounded down.
pub proof fn law_centred_means_equal_margins(outer: nat, inner: nat, percent: nat)
    requires
        inner <= outer,
    ensures
        0 <= outer - inner - margin(outer, inner) - margin(outer, inner) <= 1,
        percent <= 100 ==> 100 * share_of_width(outer, percent) <= outer * percent < 100 * (
        share_of_width(outer, percent) + 1),
        percent >= 100 ==> share_of_width(outer, percent) == outer,
{
    if percent <= 100 {
        assert(outer * percent <= outer * 100) by (nonlinear_arith)
            requires
                percent <= 100,
        ;
    } else {
        assert(outer * percent >= outer * 100) by (nonlinear_arith)
            requires
                percent >= 100,
        ;
    }
    if percent == 100 {
        assert(outer * percent == outer * 100);
    }
}

/// While several Items are reclaimed the panel says how far it has come and how much
/// was freed, what is being reclaimed now, and whether a stop was asked for; with one
/// Item it says which and how.
pub proof fn law_the_panel_says_how_far_it_is(progress: ProgressView, tick: nat)
    ensures
        ({
            let lines = reclaiming_of(progress, tick);
            let now = match progress.current_path {
                Some(path) => text::lossy_utf8(path),
                None => "Preparing next Item"@,
            };
            let at = if progress.current_ordinal > progress.completed {
                progress.current_ordinal
            } else {
                progress.completed
            };
            &&& lines.len() == 4
            &&& lines[0].last().text == progress.title
            &&& progress.total > 1 ==> {
                &&& screen::spoken(lines[1]) == "  "@ + (text::decimal(at) + "/"@ + text::decimal(
                    progress.total,
                ) + " Items"@) + (" · "@ + scan::human_text(progress.reclaimed_bytes)
                    + " reclaimed"@)
                &&& screen::spoken(lines[2]) == "  Now: "@ + now
                &&& screen::spoken(lines[3]) == (if progress.stop_requested {
                    "  "@ + "Stop requested"@ + " · current Item will finish"@
                } else {
                    "  "@ + "[s/Esc]"@ + " stop after current Item"@
                })
            }
            &&& progress.total <= 1 ==> {
                &&& screen::spoken(lines[1]) == "  "@ + now
                &&& screen::spoken(lines[2]) == "  "@ + progress.current_action
            }
        }),
{
    let lines = reclaiming_of(progress, tick);
    lemma_spoken_lines(lines[1]);
    lemma_spoken_lines(lines[2]);
    lemma_spoken_lines(lines[3]);
}

/// A prompt is shown exactly for what is still there, and it is the prompt of that
/// Item, of the group as it stands now, or of the selection.
pub proof fn law_the_prompt_is_about_its_target(
    st: StateView,
    target: ConfirmTarget,
    prompt: Option<Prompt>,
)
    requires
        prompts_for(st, target, prompt),
    ensures
        match target {
            ConfirmTarget::Item { index } => {
                &&& prompt is Some <==> index < st.items.len()
                &&& prompt is Some ==> screen::lines_view(prompt->0.lines@) == item_confirm_of(
                    st.items[index as int],
                )
            },
            ConfirmTarget::Group { class } => {
                &&& prompt is Some <==> groups::group_of(st.items, class).count > 0
                &&& prompt is Some ==> screen::lines_view(prompt->0.lines@) == group_confirm_of(
                    groups::group_of(st.items, class),
                )
            },
            ConfirmTarget::Selection => prompt is Some && screen::lines_view(prompt->0.lines@)
                == selection_confirm_of(st),
        },
{
}

/// A prompt has room for all of its lines and its border, and its title says what is
/// asked about.
pub proof fn law_a_prompt_has_room_for_its_lines(
    st: StateView,
    target: ConfirmTarget,
    prompt: Prompt,
)
    requires
        prompts_for(st, target, Some(prompt)),
    ensures
        prompt.height >= prompt.lines@.len() + 2,
        target is Item ==> prompt.title@ == " Confirm Reclaim "@,
        target is Group ==> prompt.title@ == " Confirm Group Reclaim "@,
        target is Selection ==> prompt.title@ == " Confirm Selection Reclaim "@,
{
    assert(screen::lines_view(prompt.lines@).len() == prompt.lines@.len());
}

/// The prompt of a group of overridden Items says what becomes of them: they go to
/// the Trash if no Rule knows them, and away for good if they are browser caches. No
/// other group has such a line.
pub proof fn law_a_prompt_says_what_becomes_of_overridden_items(group: GroupView)
    ensures
        group.class == SafetyClass::Unclassified ==> group_confirm_of(group)[7] == seq![
            screen::plain_of("  Only overridden Items move to Trash."@),
        ],
        group.class == SafetyClass::BrowserCache ==> group_confirm_of(group)[7] == seq![
            screen::plain_of("  Only overridden Items are deleted."@),
        ],
        group_confirm_of(group).len() == if group.class == SafetyClass::Unclassified
            || group.class == SafetyClass::BrowserCache {
            10nat
        } else {
            9
        },
        screen::spoken(group_confirm_of(group)[4]) == "  "@ + state::recovery_hint(group.class),
{
    lemma_spoken_lines(group_confirm_of(group)[4]);
}

} // verus!
