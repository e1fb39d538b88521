//! The overview pane: one proportional bar per group or Item, scaled so the
//! largest on disk fills the pane, coloured by Safety Class.

use crate::bars;
use crate::groups;
use crate::groups::GroupSummary;
use crate::model::SafetyClass;
use crate::scan;
use crate::screen;
use crate::screen::Line;
use crate::screen::SpanView;
use crate::state::AppState;
use crate::state::Screen;
use crate::state::StateView;
use crate::text;
use vstd::prelude::*;

verus! {

/// The largest of some sizes, zero where there are none.
pub open spec fn largest(sizes: Seq<nat>) -> nat
    decreases sizes.len(),
{
    if sizes.len() == 0 {
        0
    } else {
        let before = largest(sizes.drop_last());
        if sizes.last() > before {
            sizes.last()
        } else {
            before
        }
    }
}

/// The cells that the bars may take in a pane of `width` cells: two are for the
/// mark of the highlighted row and seven for the size.
pub open spec fn bar_room(width: nat) -> nat {
    if width > 9 {
        (width - 9) as nat
    } else {
        0
    }
}

/// One line of the overview.
pub open spec fn overview_line(
    marked: bool,
    size: nat,
    max_size: nat,
    width: nat,
    class: SafetyClass,
) -> Seq<SpanView> {
    seq![
        screen::plain_of(
            if marked {
                "▶ "@
            } else {
                "  "@
            },
        ),
        screen::bold_of(text::padded_left(scan::human_text(size), 6) + " "@),
        screen::tinted_of(
            text::repeated('█', bars::bar_length(size, max_size, bar_room(width))),
            screen::class_tint(class),
        ),
    ]
}

/// What the overview compares: the size and class of each row of the list, and
/// which row is highlighted.
pub open spec fn overview_sizes(st: StateView) -> Seq<(nat, SafetyClass)> {
    match st.screen {
        Screen::Groups => groups::groups(st.items).map_values(
            |g: groups::GroupView| (g.total_bytes, g.class),
        ),
        Screen::Items { class } => groups::places_of(st.items, class).map_values(
            |i: int| (st.items[i].size, st.items[i].class),
        ),
    }
}

/// The highlighted row.
pub open spec fn highlighted(st: StateView) -> Option<usize> {
    match st.screen {
        Screen::Groups => st.group_list,
        Screen::Items { .. } => st.item_list,
    }
}

/// The lines of a bar chart of `sizes` in a pane of `width` by `height`.
pub open spec fn chart_of(
    sizes: Seq<(nat, SafetyClass)>,
    selected: Option<usize>,
    width: nat,
    height: nat,
) -> Seq<Seq<SpanView>> {
    let max_size = largest(sizes.map_values(|row: (nat, SafetyClass)| row.0));
    Seq::new(
        if sizes.len() < height {
            sizes.len()
        } else {
            height
        },
        |i: int|
            overview_line(
                selected == Some(i as usize),
                sizes[i].0,
                max_size,
                width,
                sizes[i].1,
            ),
    )
}

/// The title of the overview.
pub fn overview_title(app: &AppState) -> (r: &'static str)
    ensures
        r@ == (match app@.screen {
            Screen::Groups => " Overview · group size "@,
            Screen::Items { .. } => " Overview · item size "@,
        }),
{
    match app.screen {
        Screen::Groups => " Overview · group size ",
        Screen::Items { .. } => " Overview · item size ",
    }
}

/// The size and class of a row.
struct Row {
    size: u64,
    class: SafetyClass,
}

spec fn row_views(rows: Seq<Row>) -> Seq<(nat, SafetyClass)> {
    Seq::new(rows.len(), |i: int| (rows[i].size as nat, rows[i].class))
}

fn rows_of(app: &AppState) -> (r: Vec<Row>)
    requires
        app@.valid(),
    ensures
        row_views(r@) == overview_sizes(app@),
{
    let ghost st = app@;
    let mut rows: Vec<Row> = Vec::new();
    match app.screen {
        Screen::Groups => {
            let all: Vec<GroupSummary> = groups::group_summaries(&app.scan);
            let ghost views = groups::groups(st.items);
            let mut i: usize = 0;
            while i < all.len()
                invariant
                    i <= all@.len(),
                    views == groups::group_views(all@),
                    rows@.len() == i,
                    forall|k: int|
                        0 <= k < i ==> (#[trigger] rows@[k]).size == views[k].total_bytes
                            && rows@[k].class == views[k].class,
                decreases all@.len() - i,
            {
                assert(views[i as int] == all@[i as int]@);
                rows.push(Row { size: all[i].total_bytes, class: all[i].class });
                i = i + 1;
            }
            assert(views.len() == all@.len());
        },
        Screen::Items { class } => {
            let places: Vec<usize> = groups::item_indices_for_class(&app.scan, class);
            let ghost seen = places@.map_values(|i: usize| i as int);
            proof {
                groups::law_places_of_a_class(st.items, class);
            }
            let mut k: usize = 0;
            while k < places.len()
                invariant
                    k <= places@.len(),
                    st == app@,
                    seen == places@.map_values(|i: usize| i as int),
                    forall|j: int| 0 <= j < seen.len() ==> 0 <= #[trigger] seen[j] < st.items.len(),
                    rows@.len() == k,
                    forall|j: int|
                        0 <= j < k ==> (#[trigger] rows@[j]).size == st.items[seen[j]].size
                            && rows@[j].class == st.items[seen[j]].class,
                decreases places@.len() - k,
            {
                let i: usize = places[k];
                assert(seen[k as int] == i);
                assert(st.items[i as int] == app.scan.items@[i as int]@);
                rows.push(
                    Row { size: app.scan.items[i].size_on_disk, class: app.scan.items[i].class },
                );
                k = k + 1;
            }
            assert(seen.len() == places@.len());
        },
    }
    assert(row_views(rows@) =~= overview_sizes(st));
    rows
}

fn largest_size(rows: &Vec<Row>) -> (r: u64)
    ensures
        r == largest(row_views(rows@).map_values(|row: (nat, SafetyClass)| row.0)),
{
    let ghost sizes = row_views(rows@).map_values(|row: (nat, SafetyClass)| row.0);
    let mut max: u64 = 0;
    let mut i: usize = 0;
    assert(sizes.take(0) =~= Seq::empty());
    while i < rows.len()
        invariant
            i <= rows@.len(),
            sizes == row_views(rows@).map_values(|row: (nat, SafetyClass)| row.0),
            max == largest(sizes.take(i as int)),
        decreases rows@.len() - i,
    {
        assert(sizes.take(i + 1).drop_last() =~= sizes.take(i as int));
        assert(sizes.take(i + 1).last() == rows@[i as int].size);
        if rows[i].size > max {
            max = rows[i].size;
        }
        i = i + 1;
    }
    assert(sizes.take(sizes.len() as int) =~= sizes);
    max
}

/// The lines of the overview in a pane of `width` by `height`.
pub fn draw_overview(app: &AppState, width: u16, height: u16) -> (r: Vec<Line>)
    requires
        app@.valid(),
    ensures
        screen::lines_view(r@) == chart_of(
            overview_sizes(app@),
            highlighted(app@),
            width as nat,
            height as nat,
        ),
{
    let rows: Vec<Row> = rows_of(app);
    let ghost sizes = overview_sizes(app@);
    let max_size: u64 = largest_size(&rows);
    let room: u16 = if width > 9 {
        width - 9
    } else {
        0
    };
    let selected: Option<usize> = match app.screen {
        Screen::Groups => app.group_list,
        Screen::Items { .. } => app.item_list,
    };
    let ghost want = chart_of(sizes, selected, width as nat, height as nat);
    assert(sizes.len() == rows@.len());
    let mut lines: Vec<Line> = Vec::new();
    let mut i: usize = 0;
    while i < rows.len() && i < height as usize
        invariant
            i <= rows@.len(),
            i <= height,
            sizes == row_views(rows@),
            sizes.len() == rows@.len(),
            max_size == largest(sizes.map_values(|row: (nat, SafetyClass)| row.0)),
            room == bar_room(width as nat),
            want == chart_of(sizes, selected, width as nat, height as nat),
            screen::lines_view(lines@) == want.take(i as int),
        decreases rows@.len() - i,
    {
        let ghost before = lines@;
        let marked: bool = match selected {
            Some(k) => k == i,
            None => false,
        };
        let cells: u16 = bars::bar_cells(rows[i].size, max_size, room);
        let size: String = text::pad_left(scan::human(rows[i].size).as_str(), 6).concat(" ");
        let bar: String = text::repeat_char('█', cells as usize);
        lines.push(
            screen::line3(
                screen::plain(
                    if marked {
                        "▶ "
                    } else {
                        "  "
                    },
                ),
                screen::bold(size.as_str()),
                screen::tinted(bar.as_str(), screen::class_color(rows[i].class)),
            ),
        );
        assert(sizes[i as int] == (rows@[i as int].size as nat, rows@[i as int].class));
        assert(screen::lines_view(lines@) =~= screen::lines_view(before).push(lines@.last()@));
        assert(want.take(i + 1) =~= want.take(i as int).push(want[i as int]));
        i = i + 1;
    }
    assert(want.take(i as int) =~= want);
    lines
}

/// The largest of some sizes is one of them, and none is larger.
pub proof fn law_none_is_larger_than_the_largest(sizes: Seq<nat>)
    ensures
        forall|i: int| 0 <= i < sizes.len() ==> #[trigger] sizes[i] <= largest(sizes),
        sizes.len() > 0 ==> sizes.contains(largest(sizes)),
        sizes.len() == 0 ==> largest(sizes) == 0,
    decreases sizes.len(),
{
    if sizes.len() > 0 {
        let front = sizes.drop_last();
        law_none_is_larger_than_the_largest(front);
        assert forall|i: int| 0 <= i < sizes.len() implies #[trigger] sizes[i] <= largest(
            sizes,
        ) by {
            if i < front.len() {
                assert(front[i] == sizes[i]);
            }
        }
        if sizes.last() > largest(front) || front.len() == 0 {
            assert(sizes[sizes.len() - 1] == largest(sizes));
        } else {
            let i = choose|i: int| 0 <= i < front.len() && front[i] == largest(front);
            assert(sizes[i] == largest(sizes));
        }
    }
}

/// The overview has a line for each row as far as there is room, in the order of the
/// list. Each says its size and draws its bar in the colour of its class against the
/// largest row, and the highlighted one is marked.
pub proof fn law_each_row_has_its_bar(
    sizes: Seq<(nat, SafetyClass)>,
    selected: Option<usize>,
    width: nat,
    height: nat,
    i: int,
)
    requires
        sizes.len() <= usize::MAX,
        0 <= i < sizes.len(),
        i < height,
    ensures
        ({
            let chart = chart_of(sizes, selected, width, height);
            let top = largest(sizes.map_values(|row: (nat, SafetyClass)| row.0));
            let room = if width > 9 {
                (width - 9) as nat
            } else {
                0
            };
            &&& chart.len() == if sizes.len() < height {
                sizes.len()
            } else {
                height
            }
            &&& chart[i].len() == 3
            &&& chart[i][0].text == (if selected is Some && selected->0 == i {
                "▶ "@
            } else {
                "  "@
            })
            &&& chart[i][1].text == text::padded_left(scan::human_text(sizes[i].0), 6) + " "@
            &&& chart[i][2].text == text::repeated(
                '█',
                bars::bar_length(sizes[i].0, top, room),
            )
            &&& chart[i][2].tint == screen::class_tint(sizes[i].1)
            &&& sizes[i].0 <= top
            &&& sizes[i].0 > 0 && sizes[i].0 == top ==> chart[i][2].text.len() == room
        }),
{
    let only = sizes.map_values(|row: (nat, SafetyClass)| row.0);
    law_none_is_larger_than_the_largest(only);
    assert(only[i] == sizes[i].0);
    if sizes[i].0 > 0 {
        bars::law_largest_bar_fills_the_pane(sizes[i].0, bar_room(width));
    }
}

/// The overview compares what the list shows: all groups by their total size, or the
/// Items of the open group by theirs; and it marks the row that the list highlights.
pub proof fn law_the_overview_shows_the_list(st: StateView, k: int)
    ensures
        match st.screen {
            Screen::Groups => {
                &&& overview_sizes(st).len() == groups::groups(st.items).len()
                &&& highlighted(st) == st.group_list
                &&& 0 <= k < overview_sizes(st).len() ==> overview_sizes(st)[k] == (
                    groups::groups(st.items)[k].total_bytes,
                    groups::groups(st.items)[k].class,
                )
            },
            Screen::Items { class } => {
                &&& overview_sizes(st).len() == groups::group_of(st.items, class).count
                &&& highlighted(st) == st.item_list
                &&& 0 <= k < overview_sizes(st).len() ==> overview_sizes(st)[k] == (
                    st.items[groups::places_of(st.items, class)[k]].size,
                    class,
                )
            },
        },
{
    if let Screen::Items { class } = st.screen {
        groups::law_places_of_a_class(st.items, class);
    }
}

} // verus!
