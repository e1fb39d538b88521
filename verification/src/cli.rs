//! What the command line asks for: which root to scan, which Rules to apply, and
//! how a Scan is printed.

use crate::groups;
use crate::model;
use crate::model::Item;
use crate::model::ItemView;
use crate::model::Scan;
use crate::path;
use crate::path::DiskPath;
use crate::ruleset;
use crate::ruleset::Ruleset;
use crate::scan;
use crate::text;
use vstd::prelude::*;
use vstd::utf8::*;

verus! {

broadcast use vstd::string::group_string_axioms;

/// The root to scan: the whole disk if that is asked for, else the root that was
/// given, else the home directory.
pub fn resolve_root(
    full_disk: bool,
    root: Option<DiskPath>,
    home: Option<DiskPath>,
) -> (r: Result<DiskPath, String>)
    ensures
        match r {
            Ok(chosen) => if full_disk {
                chosen@ == encode_utf8("/"@)
            } else {
                match root {
                    Some(root) => chosen@ == root@,
                    None => home is Some && chosen@ == home->0@,
                }
            },
            Err(reason) => !full_disk && root is None && home is None && reason@
                == "HOME is not set; pass --root"@,
        },
{
    if full_disk {
        return Ok(DiskPath::new("/"));
    }
    if let Some(root) = root {
        return Ok(root);
    }
    match home {
        Some(home) => Ok(home),
        None => Err("HOME is not set; pass --root".to_owned()),
    }
}

/// The bytes below which an unmatched directory is ignored, from a count of
/// megabytes.
pub fn min_unclassified_bytes(megabytes: u64) -> (r: u64)
    requires
        megabytes * 0x10_0000 <= u64::MAX,
    ensures
        r == megabytes * 0x10_0000,
{
    megabytes * 0x10_0000
}

/// Where the user's own Rules are.
pub fn user_rules_path(home: &DiskPath) -> (r: DiskPath)
    ensures
        r@ == path::joined(home@, encode_utf8(".config/macclean/rules.toml"@)),
{
    home.join(&DiskPath::new(".config/macclean/rules.toml"))
}

/// What is said of user Rules that cannot be read.
pub open spec fn rules_warning(path: Seq<u8>, error: Seq<char>) -> Seq<char> {
    "warning: ignoring "@ + text::lossy_utf8(path) + ": "@ + error
}

/// The Rules to apply: the bundled defaults, the user's own before them if there
/// are any. User Rules that cannot be read are ignored, with a warning.
pub fn load_ruleset(
    user: Option<Result<Ruleset, String>>,
    user_path: &DiskPath,
) -> (r: (Ruleset, Option<String>))
    ensures
        match user {
            Some(Ok(rules)) => r.0@ == rules@ + ruleset::default_rules() && r.1 is None,
            Some(Err(error)) => r.0@ == ruleset::default_rules() && r.1 is Some
                && r.1->0@ == rules_warning(user_path@, error@),
            None => r.0@ == ruleset::default_rules() && r.1 is None,
        },
{
    let base: Ruleset = Ruleset::defaults();
    match user {
        Some(Ok(rules)) => (base.with_user_rules(rules), None),
        Some(Err(error)) => (
            base,
            Some(
                "warning: ignoring ".to_owned().concat(user_path.display().as_str()).concat(
                    ": ",
                ).concat(error.as_str()),
            ),
        ),
        None => (base, None),
    }
}

/// The line of an Item in a printed Scan.
pub open spec fn report_line(item: ItemView) -> Seq<char> {
    "  "@ + text::padded_left(scan::human_text(item.size), 8) + "  "@ + text::padded_right(
        model::class_label(item.class),
        14,
    ) + "  "@ + text::lossy_utf8(item.path)
}

/// The lines of a printed Scan.
pub open spec fn report_of(root: Seq<u8>, items: Seq<ItemView>) -> Seq<Seq<char>> {
    seq!["Scan of "@ + text::lossy_utf8(root)] + items.map_values(
        |item: ItemView| report_line(item),
    ) + seq!["Reclaimable now: "@ + scan::human_text(model::reclaimable_size(items))]
}

/// What texts say.
pub open spec fn texts_view(texts: Seq<String>) -> Seq<Seq<char>> {
    Seq::new(texts.len(), |i: int| texts[i]@)
}

fn report_line_text(item: &Item) -> (r: String)
    ensures
        r@ == report_line(item@),
{
    "  ".to_owned().concat(
        text::pad_left(scan::human(item.size_on_disk).as_str(), 8).as_str(),
    ).concat("  ").concat(text::pad_right(item.class.label(), 14).as_str()).concat("  ").concat(
        item.path.display().as_str(),
    )
}

/// Prints a Scan: its root, one line per Item, and what is reclaimable.
pub fn scan_report(found: &Scan) -> (r: Vec<String>)
    requires
        model::total_size(found.items_view()) <= u64::MAX,
    ensures
        texts_view(r@) == report_of(found.root@, found.items_view()),
{
    let ghost items = found.items_view();
    let ghost rows = items.map_values(|item: ItemView| report_line(item));
    let ghost first = "Scan of "@ + text::lossy_utf8(found.root@);
    let mut out: Vec<String> = Vec::new();
    out.push("Scan of ".to_owned().concat(found.root.display().as_str()));
    let mut i: usize = 0;
    assert(texts_view(out@) =~= seq![first] + rows.take(0));
    while i < found.items.len()
        invariant
            i <= found.items@.len(),
            items == found.items_view(),
            rows == items.map_values(|item: ItemView| report_line(item)),
            texts_view(out@) == seq![first] + rows.take(i as int),
        decreases found.items@.len() - i,
    {
        let ghost before = out@;
        out.push(report_line_text(&found.items[i]));
        assert(items[i as int] == found.items@[i as int]@);
        assert(texts_view(out@) =~= texts_view(before).push(rows[i as int]));
        assert(seq![first] + rows.take(i + 1) =~= (seq![first] + rows.take(i as int)).push(
            rows[i as int],
        ));
        i = i + 1;
    }
    proof {
        groups::lemma_filter_size(items, |item: ItemView| item.may_reclaim());
    }
    let ghost before = out@;
    out.push(
        "Reclaimable now: ".to_owned().concat(scan::human(found.reclaimable_bytes()).as_str()),
    );
    assert(rows.take(rows.len() as int) =~= rows);
    assert(texts_view(out@) =~= texts_view(before).push(out@.last()@));
    assert(texts_view(out@) =~= report_of(found.root@, items));
    out
}

/// A printed Scan has a line for its root, one for each Item in their order, and one
/// for what is reclaimable. The line of an Item says its size, its class and its
/// path.
pub proof fn law_a_report_lists_every_item(root: Seq<u8>, items: Seq<ItemView>, i: int)
    requires
        0 <= i < items.len(),
    ensures
        report_of(root, items).len() == items.len() + 2,
        report_of(root, items)[0] == "Scan of "@ + text::lossy_utf8(root),
        report_of(root, items)[i + 1] == "  "@ + text::padded_left(
            scan::human_text(items[i].size),
            8,
        ) + "  "@ + text::padded_right(model::class_label(items[i].class), 14) + "  "@
            + text::lossy_utf8(items[i].path),
        report_of(root, items).last() == "Reclaimable now: "@ + scan::human_text(
            model::reclaimable_size(items),
        ),
{
}

/// A rule file that is not used is named, and so is what is wrong with it.
pub proof fn law_an_unused_rule_file_is_named(path: Seq<u8>, error: Seq<char>)
    ensures
        rules_warning(path, error) == "warning: ignoring "@ + text::lossy_utf8(path) + ": "@
            + error,
{
}

} // verus!
