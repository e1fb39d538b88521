//! Matches Items against the [`Ruleset`].

use crate::glob;
use crate::path;
use crate::path::DiskPath;
use crate::ruleset;
use crate::ruleset::Match;
use crate::ruleset::MatchView;
use crate::ruleset::Rule;
use crate::ruleset::RuleView;
use crate::ruleset::Ruleset;
use crate::text;
use vstd::prelude::*;

verus! {

/// The marker files known to exist around a path: those in the directory that
/// holds it, and those directly inside it.
#[derive(Debug, Default)]
pub struct Markers {
    pub siblings: Vec<String>,
    pub children: Vec<String>,
}

/// The names in a list.
pub open spec fn names(list: Seq<String>) -> Set<Seq<char>> {
    Set::new(|name: Seq<char>| exists|i: int| 0 <= i < list.len() && (#[trigger] list[i])@ == name)
}

/// What is known of a path besides its name.
#[derive(Debug, Default)]
pub struct PathFacts {
    pub is_dir: bool,
    pub markers: Markers,
}

/// Everything a [`Match`] may look at.
pub struct Subject {
    pub path: Seq<u8>,
    pub is_dir: bool,
    pub siblings: Set<Seq<char>>,
    pub children: Set<Seq<char>>,
}

/// A path together with what is known around it.
pub open spec fn subject(path: Seq<u8>, is_dir: bool, markers: Markers) -> Subject {
    Subject {
        path,
        is_dir,
        siblings: names(markers.siblings@),
        children: names(markers.children@),
    }
}

/// Whether a condition holds of a subject. The `Dir*` conditions only ever apply
/// to directories; suffixes and globs apply to files and directories alike.
pub open spec fn holds(m: MatchView, s: Subject) -> bool
    decreases m,
{
    match m {
        MatchView::DirNamed { dir } => s.is_dir && path::name_text(s.path) == dir,
        MatchView::DirBesideSibling { dir, sibling } => s.is_dir && path::name_text(s.path) == dir
            && s.siblings.contains(sibling),
        MatchView::DirContainingFile { file } => s.is_dir && s.children.contains(file),
        MatchView::PathSuffix { suffix } => text::has_suffix(text::lossy_utf8(s.path), suffix),
        MatchView::NameSuffix { suffix } => text::has_suffix(path::name_text(s.path), suffix),
        MatchView::NameGlob { pattern } => glob::globs(pattern, path::name_text(s.path)),
        MatchView::All { of } => forall|i: int| 0 <= i < of.len() ==> holds(#[trigger] of[i], s),
        MatchView::Any { of } => exists|i: int| 0 <= i < of.len() && holds(#[trigger] of[i], s),
    }
}

/// Whether two conditions are the same but for the order and the repetition of
/// what `All` and `Any` list, at any depth.
pub open spec fn rearranged(a: MatchView, b: MatchView) -> bool
    decreases a,
{
    match (a, b) {
        (MatchView::All { of: x }, MatchView::All { of: y }) => {
            &&& forall|i: int|
                0 <= i < x.len() ==> exists|j: int|
                    0 <= j < y.len() && rearranged(#[trigger] x[i], #[trigger] y[j])
            &&& forall|j: int|
                0 <= j < y.len() ==> exists|i: int|
                    0 <= i < x.len() && rearranged(#[trigger] x[i], #[trigger] y[j])
        },
        (MatchView::Any { of: x }, MatchView::Any { of: y }) => {
            &&& forall|i: int|
                0 <= i < x.len() ==> exists|j: int|
                    0 <= j < y.len() && rearranged(#[trigger] x[i], #[trigger] y[j])
            &&& forall|j: int|
                0 <= j < y.len() ==> exists|i: int|
                    0 <= i < x.len() && rearranged(#[trigger] x[i], #[trigger] y[j])
        },
        _ => a == b,
    }
}

/// Whether `found` is the place of the first Rule that matches, or `None` where
/// no Rule does.
pub open spec fn is_first_match(rules: Seq<RuleView>, s: Subject, found: Option<usize>) -> bool {
    match found {
        Some(i) => {
            &&& i < rules.len()
            &&& holds(rules[i as int].matches, s)
            &&& forall|j: int| 0 <= j < i ==> !holds((#[trigger] rules[j]).matches, s)
        },
        None => forall|j: int| 0 <= j < rules.len() ==> !holds((#[trigger] rules[j]).matches, s),
    }
}

/// Whether a list of names holds `name`.
fn has_name(list: &Vec<String>, name: &String) -> (r: bool)
    ensures
        r == names(list@).contains(name@),
{
    let mut i: usize = 0;
    while i < list.len()
        invariant
            i <= list@.len(),
            forall|j: int| 0 <= j < i ==> (#[trigger] list@[j])@ != name@,
        decreases list@.len() - i,
    {
        if list[i] == *name {
            return true;
        }
        i = i + 1;
    }
    false
}

/// Whether a condition applies to a path whose name is already known.
fn matches_named(m: &Match, path: &DiskPath, name: &String, is_dir: bool, markers: &Markers) -> (r:
    bool)
    requires
        name@ == path::name_text(path@),
    ensures
        r == holds(ruleset::match_view(*m), subject(path@, is_dir, *markers)),
    decreases *m,
{
    let ghost s = subject(path@, is_dir, *markers);
    let ghost v = ruleset::match_view(*m);
    match m {
        // The `Dir*` conditions only ever apply to directories.
        Match::DirNamed { dir } => is_dir && *name == *dir,
        Match::DirBesideSibling { dir, sibling } => is_dir && *name == *dir && has_name(
            &markers.siblings,
            sibling,
        ),
        Match::DirContainingFile { file } => is_dir && has_name(&markers.children, file),
        // Suffix conditions apply to files and directories alike.
        Match::PathSuffix { suffix } => text::ends_with(path.display().as_str(), suffix.as_str()),
        Match::NameSuffix { suffix } => text::ends_with(name.as_str(), suffix.as_str()),
        // A `*`/`?` glob over the Item's own name.
        Match::NameGlob { pattern } => glob::glob_match(pattern.as_str(), name.as_str()),
        // Combinators: the file type is threaded through unchanged so nested
        // `Dir*` conditions still see whether the Item is a directory.
        Match::All { of } => {
            let mut i: usize = 0;
            while i < of.len()
                invariant
                    i <= of@.len(),
                    m is All,
                    m->All_of == *of,
                    name@ == path::name_text(path@),
                    s == subject(path@, is_dir, *markers),
                    v == ruleset::match_view(*m),
                    forall|j: int| 0 <= j < i ==> holds(#[trigger] v->All_of[j], s),
                decreases of@.len() - i,
            {
                assert(decreases_to!(*m => m->All_of));
                assert(decreases_to!(*of => of@));
                assert(decreases_to!(of@ => of@[i as int]));
                let one: bool = matches_named(&of[i], path, name, is_dir, markers);
                assert(v->All_of[i as int] == ruleset::match_view(of@[i as int]));
                if !one {
                    return false;
                }
                i = i + 1;
            }
            true
        },
        Match::Any { of } => {
            let mut i: usize = 0;
            while i < of.len()
                invariant
                    i <= of@.len(),
                    m is Any,
                    m->Any_of == *of,
                    name@ == path::name_text(path@),
                    s == subject(path@, is_dir, *markers),
                    v == ruleset::match_view(*m),
                    forall|j: int| 0 <= j < i ==> !holds(#[trigger] v->Any_of[j], s),
                decreases of@.len() - i,
            {
                assert(decreases_to!(*m => m->Any_of));
                assert(decreases_to!(*of => of@));
                assert(decreases_to!(of@ => of@[i as int]));
                let one: bool = matches_named(&of[i], path, name, is_dir, markers);
                assert(v->Any_of[i as int] == ruleset::match_view(of@[i as int]));
                if one {
                    return true;
                }
                i = i + 1;
            }
            false
        },
    }
}

/// Whether a condition applies to `path`. Combinators apply their conditions to the
/// same path, with the same file type and the same markers around it.
pub fn matches_path(m: &Match, path: &DiskPath, is_dir: bool, markers: &Markers) -> (r: bool)
    ensures
        r == holds(ruleset::match_view(*m), subject(path@, is_dir, *markers)),
{
    let name: String = path.name();
    matches_named(m, path, &name, is_dir, markers)
}

/// Index of the first matching Rule, the compact form a walk stores on each
/// measured entry before the fold turns it into an Item.
pub fn match_rule_index(
    ruleset: &Ruleset,
    path: &DiskPath,
    is_dir: bool,
    markers: &Markers,
) -> (r: Option<usize>)
    ensures
        is_first_match(ruleset@, subject(path@, is_dir, *markers), r),
{
    let name: String = path.name();
    let mut i: usize = 0;
    while i < ruleset.rules.len()
        invariant
            i <= ruleset.rules@.len(),
            name@ == path::name_text(path@),
            forall|j: int|
                0 <= j < i ==> !holds(
                    (#[trigger] ruleset@[j]).matches,
                    subject(path@, is_dir, *markers),
                ),
        decreases ruleset.rules@.len() - i,
    {
        let rule: &Rule = &ruleset.rules[i];
        if matches_named(&rule.matches, path, &name, is_dir, markers) {
            return Some(i);
        }
        i = i + 1;
    }
    None
}

/// First Rule whose [`Match`] applies to `path`, in Ruleset order (user rules
/// first, see [`Ruleset::with_user_rules`]), with the file type already known.
pub fn match_rule_typed<'a>(
    ruleset: &'a Ruleset,
    path: &DiskPath,
    is_dir: bool,
    markers: &Markers,
) -> (r: Option<&'a Rule>)
    ensures
        exists|found: Option<usize>|
            {
                &&& #[trigger] is_first_match(ruleset@, subject(path@, is_dir, *markers), found)
                &&& r == (match found {
                    Some(i) => Some(&ruleset.rules@[i as int]),
                    None => None::<&Rule>,
                })
            },
{
    match match_rule_index(ruleset, path, is_dir, markers) {
        Some(i) => Some(&ruleset.rules[i]),
        None => None,
    }
}

/// Like [`match_rule_typed`], with all that is known of the path in one place.
pub fn match_rule<'a>(ruleset: &'a Ruleset, path: &DiskPath, facts: &PathFacts) -> (r: Option<
    &'a Rule,
>)
    ensures
        exists|found: Option<usize>|
            {
                &&& #[trigger] is_first_match(
                    ruleset@,
                    subject(path@, facts.is_dir, facts.markers),
                    found,
                )
                &&& r == (match found {
                    Some(i) => Some(&ruleset.rules@[i as int]),
                    None => None::<&Rule>,
                })
            },
{
    match_rule_typed(ruleset, path, facts.is_dir, &facts.markers)
}

/// Whether a condition on something named `name` asks for the sibling `wanted`.
pub open spec fn asks_sibling(m: MatchView, name: Seq<char>, wanted: Seq<char>) -> bool
    decreases m,
{
    match m {
        MatchView::DirBesideSibling { dir, sibling } => dir == name && sibling == wanted,
        MatchView::All { of } => exists|i: int|
            0 <= i < of.len() && asks_sibling(#[trigger] of[i], name, wanted),
        MatchView::Any { of } => exists|i: int|
            0 <= i < of.len() && asks_sibling(#[trigger] of[i], name, wanted),
        _ => false,
    }
}

/// Whether a condition asks for the child `wanted`.
pub open spec fn asks_child(m: MatchView, wanted: Seq<char>) -> bool
    decreases m,
{
    match m {
        MatchView::DirContainingFile { file } => file == wanted,
        MatchView::All { of } => exists|i: int|
            0 <= i < of.len() && asks_child(#[trigger] of[i], wanted),
        MatchView::Any { of } => exists|i: int|
            0 <= i < of.len() && asks_child(#[trigger] of[i], wanted),
        _ => false,
    }
}

/// Whether matching a path against `rules` may look for the sibling `wanted`.
pub open spec fn wants_sibling(
    rules: Seq<RuleView>,
    path: Seq<u8>,
    is_dir: bool,
    wanted: Seq<char>,
) -> bool {
    is_dir && exists|i: int|
        0 <= i < rules.len() && asks_sibling(
            (#[trigger] rules[i]).matches,
            path::name_text(path),
            wanted,
        )
}

/// Whether matching a path against `rules` may look for the child `wanted`.
pub open spec fn wants_child(rules: Seq<RuleView>, is_dir: bool, wanted: Seq<char>) -> bool {
    is_dir && exists|i: int|
        0 <= i < rules.len() && asks_child((#[trigger] rules[i]).matches, wanted)
}

proof fn lemma_names_push(list: Seq<String>, more: String)
    ensures
        names(list.push(more)) == names(list).insert(more@),
{
    assert forall|n: Seq<char>| names(list.push(more)).contains(n) <==> names(list).insert(
        more@,
    ).contains(n) by {
        if names(list).contains(n) {
            let i = choose|i: int| 0 <= i < list.len() && (#[trigger] list[i])@ == n;
            assert(list.push(more)[i]@ == n);
        }
        if n == more@ {
            assert(list.push(more)[list.len() as int]@ == n);
        }
        if names(list.push(more)).contains(n) {
            let i = choose|i: int|
                0 <= i < list.push(more).len() && (#[trigger] list.push(more)[i])@ == n;
            if i < list.len() {
                assert(list[i]@ == n);
            }
        }
    }
    assert(names(list.push(more)) =~= names(list).insert(more@));
}

fn collect_wanted(m: &Match, name: &String, out: &mut Markers)
    ensures
        forall|n: Seq<char>| #[trigger]
            names(final(out).siblings@).contains(n) <==> names(old(out).siblings@).contains(n)
                || asks_sibling(ruleset::match_view(*m), name@, n),
        forall|n: Seq<char>| #[trigger]
            names(final(out).children@).contains(n) <==> names(old(out).children@).contains(n)
                || asks_child(ruleset::match_view(*m), n),
    decreases *m,
{
    let ghost v = ruleset::match_view(*m);
    match m {
        Match::DirBesideSibling { dir, sibling } => {
            if *dir == *name {
                proof {
                    lemma_names_push(out.siblings@, *sibling);
                }
                out.siblings.push(sibling.clone());
            }
        },
        Match::DirContainingFile { file } => {
            proof {
                lemma_names_push(out.children@, *file);
            }
            out.children.push(file.clone());
        },
        Match::All { of } => {
            let mut i: usize = 0;
            let ghost inner = v->All_of;
            while i < of.len()
                invariant
                    i <= of@.len(),
                    m is All,
                    m->All_of == *of,
                    v == ruleset::match_view(*m),
                    inner == v->All_of,
                    forall|n: Seq<char>| #[trigger]
                        names(out.siblings@).contains(n) <==> names(old(out).siblings@).contains(n)
                            || exists|j: int|
                            0 <= j < i && asks_sibling(#[trigger] inner[j], name@, n),
                    forall|n: Seq<char>| #[trigger]
                        names(out.children@).contains(n) <==> names(old(out).children@).contains(n)
                            || exists|j: int| 0 <= j < i && asks_child(#[trigger] inner[j], n),
                decreases of@.len() - i,
            {
                assert(decreases_to!(*m => m->All_of));
                assert(decreases_to!(*of => of@));
                assert(decreases_to!(of@ => of@[i as int]));
                collect_wanted(&of[i], name, out);
                assert(inner[i as int] == ruleset::match_view(of@[i as int]));
                i = i + 1;
            }
        },
        Match::Any { of } => {
            let mut i: usize = 0;
            let ghost inner = v->Any_of;
            while i < of.len()
                invariant
                    i <= of@.len(),
                    m is Any,
                    m->Any_of == *of,
                    v == ruleset::match_view(*m),
                    inner == v->Any_of,
                    forall|n: Seq<char>| #[trigger]
                        names(out.siblings@).contains(n) <==> names(old(out).siblings@).contains(n)
                            || exists|j: int|
                            0 <= j < i && asks_sibling(#[trigger] inner[j], name@, n),
                    forall|n: Seq<char>| #[trigger]
                        names(out.children@).contains(n) <==> names(old(out).children@).contains(n)
                            || exists|j: int| 0 <= j < i && asks_child(#[trigger] inner[j], n),
                decreases of@.len() - i,
            {
                assert(decreases_to!(*m => m->Any_of));
                assert(decreases_to!(*of => of@));
                assert(decreases_to!(of@ => of@[i as int]));
                collect_wanted(&of[i], name, out);
                assert(inner[i as int] == ruleset::match_view(of@[i as int]));
                i = i + 1;
            }
        },
        _ => {},
    }
}

/// The marker files whose presence decides which Rule matches `path`: what to
/// look for on disk before [`match_rule_index`] is asked.
pub fn wanted_markers(ruleset: &Ruleset, path: &DiskPath, is_dir: bool) -> (r: Markers)
    ensures
        forall|n: Seq<char>| #[trigger]
            names(r.siblings@).contains(n) <==> wants_sibling(ruleset@, path@, is_dir, n),
        forall|n: Seq<char>| #[trigger]
            names(r.children@).contains(n) <==> wants_child(ruleset@, is_dir, n),
{
    let mut out: Markers = Markers { siblings: Vec::new(), children: Vec::new() };
    if !is_dir {
        return out;
    }
    let name: String = path.name();
    let mut i: usize = 0;
    while i < ruleset.rules.len()
        invariant
            i <= ruleset.rules@.len(),
            name@ == path::name_text(path@),
            forall|n: Seq<char>| #[trigger]
                names(out.siblings@).contains(n) <==> exists|j: int|
                    0 <= j < i && asks_sibling((#[trigger] ruleset@[j]).matches, name@, n),
            forall|n: Seq<char>| #[trigger]
                names(out.children@).contains(n) <==> exists|j: int|
                    0 <= j < i && asks_child((#[trigger] ruleset@[j]).matches, n),
        decreases ruleset.rules@.len() - i,
    {
        collect_wanted(&ruleset.rules[i].matches, &name, &mut out);
        assert(ruleset@[i as int].matches == ruleset::match_view(ruleset.rules@[i as int].matches));
        i = i + 1;
    }
    out
}

/// A condition looks at no other marker than the ones it asks for.
proof fn lemma_only_asked_markers_matter(m: MatchView, s: Subject, t: Subject)
    requires
        s.path == t.path,
        s.is_dir == t.is_dir,
        s.is_dir ==> forall|n: Seq<char>|
            #[trigger] asks_sibling(m, path::name_text(s.path), n) ==> (s.siblings.contains(n)
                <==> t.siblings.contains(n)),
        s.is_dir ==> forall|n: Seq<char>|
            #[trigger] asks_child(m, n) ==> (s.children.contains(n) <==> t.children.contains(n)),
    ensures
        holds(m, s) == holds(m, t),
    decreases m,
{
    match m {
        MatchView::DirBesideSibling { dir, sibling } => {
            if dir == path::name_text(s.path) {
                assert(asks_sibling(m, path::name_text(s.path), sibling));
            }
        },
        MatchView::DirContainingFile { file } => {
            assert(asks_child(m, file));
        },
        MatchView::All { of } => {
            assert forall|i: int| 0 <= i < of.len() implies holds(#[trigger] of[i], s) == holds(
                of[i],
                t,
            ) by {
                assert forall|n: Seq<char>|
                    s.is_dir && #[trigger] asks_child(of[i], n) implies (s.children.contains(n)
                    <==> t.children.contains(n)) by {
                    assert(asks_child(m, n));
                }
                assert forall|n: Seq<char>|
                    s.is_dir && #[trigger] asks_sibling(of[i], path::name_text(s.path), n) implies (
                s.siblings.contains(n) <==> t.siblings.contains(n)) by {
                    assert(asks_sibling(m, path::name_text(s.path), n));
                }
                lemma_only_asked_markers_matter(of[i], s, t);
            }
        },
        MatchView::Any { of } => {
            assert forall|i: int| 0 <= i < of.len() implies holds(#[trigger] of[i], s) == holds(
                of[i],
                t,
            ) by {
                assert forall|n: Seq<char>|
                    s.is_dir && #[trigger] asks_child(of[i], n) implies (s.children.contains(n)
                    <==> t.children.contains(n)) by {
                    assert(asks_child(m, n));
                }
                assert forall|n: Seq<char>|
                    s.is_dir && #[trigger] asks_sibling(of[i], path::name_text(s.path), n) implies (
                s.siblings.contains(n) <==> t.siblings.contains(n)) by {
                    assert(asks_sibling(m, path::name_text(s.path), n));
                }
                lemma_only_asked_markers_matter(of[i], s, t);
            }
        },
        _ => {},
    }
}

/// The wanted markers suffice: two accounts of a path that agree on them have
/// the same first match.
pub proof fn law_wanted_markers_suffice(
    rules: Seq<RuleView>,
    s: Subject,
    t: Subject,
    found: Option<usize>,
)
    requires
        s.path == t.path,
        s.is_dir == t.is_dir,
        forall|n: Seq<char>|
            #[trigger] wants_sibling(rules, s.path, s.is_dir, n) ==> (s.siblings.contains(n)
                <==> t.siblings.contains(n)),
        forall|n: Seq<char>|
            #[trigger] wants_child(rules, s.is_dir, n) ==> (s.children.contains(n) <==> t.children.contains(
                n,
            )),
    ensures
        is_first_match(rules, s, found) <==> is_first_match(rules, t, found),
{
    assert forall|i: int| 0 <= i < rules.len() implies holds((#[trigger] rules[i]).matches, s)
        == holds(rules[i].matches, t) by {
        assert forall|n: Seq<char>|
            s.is_dir && #[trigger] asks_sibling(rules[i].matches, path::name_text(s.path), n) implies (
        s.siblings.contains(n) <==> t.siblings.contains(n)) by {
            assert(wants_sibling(rules, s.path, s.is_dir, n));
        }
        assert forall|n: Seq<char>| s.is_dir && #[trigger] asks_child(rules[i].matches, n) implies (
        s.children.contains(n) <==> t.children.contains(n)) by {
            assert(wants_child(rules, s.is_dir, n));
        }
        lemma_only_asked_markers_matter(rules[i].matches, s, t);
    }
}

/// `All` holds where each of its conditions does, `Any` where one of them does. So
/// `All` of nothing holds everywhere, and `Any` of nothing nowhere.
pub proof fn law_all_and_any(of: Seq<MatchView>, s: Subject)
    ensures
        holds(MatchView::All { of }, s) <==> forall|i: int|
            0 <= i < of.len() ==> holds(#[trigger] of[i], s),
        holds(MatchView::Any { of }, s) <==> exists|i: int|
            0 <= i < of.len() && holds(#[trigger] of[i], s),
        of.len() == 0 ==> holds(MatchView::All { of }, s) && !holds(MatchView::Any { of }, s),
{
    let all = MatchView::All { of };
    let any = MatchView::Any { of };
    assert forall|i: int| 0 <= i < of.len() && holds(all, s) implies holds(#[trigger] of[i], s) by {
        assert(all->All_of[i] == of[i]);
    }
    assert forall|i: int| 0 <= i < of.len() && holds(#[trigger] of[i], s) implies holds(any, s) by {
        assert(any->Any_of[i] == of[i]);
    }
}

/// The same of the conditions that a [`Match`] lists: `All` applies to a path where
/// each of them does, `Any` where one of them does.
pub proof fn law_combinators_combine(of: Vec<Match>, s: Subject)
    ensures
        holds(ruleset::match_view(Match::All { of }), s) <==> forall|i: int|
            0 <= i < of@.len() ==> holds(ruleset::match_view(#[trigger] of@[i]), s),
        holds(ruleset::match_view(Match::Any { of }), s) <==> exists|i: int|
            0 <= i < of@.len() && holds(ruleset::match_view(#[trigger] of@[i]), s),
        of@.len() == 0 ==> holds(ruleset::match_view(Match::All { of }), s) && !holds(
            ruleset::match_view(Match::Any { of }),
            s,
        ),
{
    let views = Seq::new(of@.len(), |i: int| ruleset::match_view(of@[i]));
    assert(ruleset::match_view(Match::All { of })->All_of =~= views);
    assert(ruleset::match_view(Match::Any { of })->Any_of =~= views);
    law_all_and_any(views, s);
    assert(forall|i: int|
        0 <= i < of@.len() ==> #[trigger] views[i] == ruleset::match_view(of@[i]));
    assert(forall|i: int|
        0 <= i < of@.len() ==> ruleset::match_view(#[trigger] of@[i]) == views[i]);
}

/// The order and the repetition of conditions do not matter, however deep they
/// are nested.
pub proof fn law_arrangement_does_not_matter(a: MatchView, b: MatchView, s: Subject)
    requires
        rearranged(a, b),
    ensures
        holds(a, s) == holds(b, s),
    decreases a,
{
    match (a, b) {
        (MatchView::All { of: x }, MatchView::All { of: y }) => {
            assert forall|i: int, j: int|
                0 <= i < x.len() && 0 <= j < y.len() && rearranged(
                    #[trigger] x[i],
                    #[trigger] y[j],
                ) implies holds(x[i], s) == holds(y[j], s) by {
                law_arrangement_does_not_matter(x[i], y[j], s);
            }
        },
        (MatchView::Any { of: x }, MatchView::Any { of: y }) => {
            assert forall|i: int, j: int|
                0 <= i < x.len() && 0 <= j < y.len() && rearranged(
                    #[trigger] x[i],
                    #[trigger] y[j],
                ) implies holds(x[i], s) == holds(y[j], s) by {
                law_arrangement_does_not_matter(x[i], y[j], s);
            }
        },
        _ => {},
    }
}

/// Conditions that list the same ones, in whatever order and however often, hold
/// together.
pub proof fn law_lists_are_sets(x: Seq<MatchView>, y: Seq<MatchView>, s: Subject)
    requires
        x.to_set() == y.to_set(),
    ensures
        holds(MatchView::All { of: x }, s) == holds(MatchView::All { of: y }, s),
        holds(MatchView::Any { of: x }, s) == holds(MatchView::Any { of: y }, s),
{
    broadcast use vstd::seq_lib::group_seq_properties;

    law_all_and_any(x, s);
    law_all_and_any(y, s);
    assert forall|i: int| 0 <= i < x.len() implies y.contains(#[trigger] x[i]) by {
        assert(x.to_set().contains(x[i]));
    }
    assert forall|j: int| 0 <= j < y.len() implies x.contains(#[trigger] y[j]) by {
        assert(y.to_set().contains(y[j]));
    }
}

/// The same of the conditions that a [`Match`] lists.
pub proof fn law_listed_conditions_are_sets(x: Vec<Match>, y: Vec<Match>, s: Subject)
    requires
        x@.to_set() == y@.to_set(),
    ensures
        holds(ruleset::match_view(Match::All { of: x }), s) == holds(
            ruleset::match_view(Match::All { of: y }),
            s,
        ),
        holds(ruleset::match_view(Match::Any { of: x }), s) == holds(
            ruleset::match_view(Match::Any { of: y }),
            s,
        ),
{
    broadcast use vstd::seq_lib::group_seq_properties;

    law_combinators_combine(x, s);
    law_combinators_combine(y, s);
    assert forall|i: int| 0 <= i < x@.len() implies y@.contains(#[trigger] x@[i]) by {
        assert(x@.to_set().contains(x@[i]));
    }
    assert forall|j: int| 0 <= j < y@.len() implies x@.contains(#[trigger] y@[j]) by {
        assert(y@.to_set().contains(y@[j]));
    }
}

/// There is only one first match.
pub proof fn law_first_match_is_unique(
    rules: Seq<RuleView>,
    s: Subject,
    a: Option<usize>,
    b: Option<usize>,
)
    requires
        is_first_match(rules, s, a),
        is_first_match(rules, s, b),
    ensures
        a == b,
{
    match (a, b) {
        (Some(i), Some(j)) => {
            if i < j {
                assert(!holds(rules[i as int].matches, s));
            } else if j < i {
                assert(!holds(rules[j as int].matches, s));
            }
        },
        (Some(i), None) => {
            assert(!holds(rules[i as int].matches, s));
        },
        (None, Some(j)) => {
            assert(!holds(rules[j as int].matches, s));
        },
        (None, None) => {},
    }
}

/// User Rules take precedence: where one of them matches, it is the match of the
/// merged Ruleset, and where none does, the other Rules decide as they would
/// alone.
pub proof fn law_user_rules_win(
    user: Seq<RuleView>,
    rest: Seq<RuleView>,
    s: Subject,
    found: Option<usize>,
)
    requires
        is_first_match(user + rest, s, found),
    ensures
        match found {
            Some(i) => if i < user.len() {
                is_first_match(user, s, found)
            } else {
                is_first_match(user, s, None) && is_first_match(
                    rest,
                    s,
                    Some((i - user.len()) as usize),
                )
            },
            None => is_first_match(user, s, None) && is_first_match(rest, s, None),
        },
{
    let all = user + rest;
    assert forall|j: int| 0 <= j < user.len() implies all[j] == user[j] by {}
    assert forall|j: int| 0 <= j < rest.len() implies all[user.len() + j] == #[trigger] rest[j] by {}
    match found {
        Some(i) => {
            if i >= user.len() {
                assert forall|j: int| 0 <= j < user.len() implies !holds(
                    (#[trigger] user[j]).matches,
                    s,
                ) by {
                    assert(!holds(all[j].matches, s));
                }
                assert forall|j: int| 0 <= j < i - user.len() implies !holds(
                    (#[trigger] rest[j]).matches,
                    s,
                ) by {
                    assert(!holds(all[user.len() + j].matches, s));
                }
            } else {
                assert forall|j: int| 0 <= j < i implies !holds(
                    (#[trigger] user[j]).matches,
                    s,
                ) by {
                    assert(!holds(all[j].matches, s));
                }
            }
        },
        None => {
            assert forall|j: int| 0 <= j < user.len() implies !holds(
                (#[trigger] user[j]).matches,
                s,
            ) by {
                assert(!holds(all[j].matches, s));
            }
            assert forall|j: int| 0 <= j < rest.len() implies !holds(
                (#[trigger] rest[j]).matches,
                s,
            ) by {
                assert(!holds(all[user.len() + j].matches, s));
            }
        },
    }
}

/// What each condition asks of a path: a directory of a name, a directory with a
/// marker beside it or in it, or an ending or a pattern of the path or the name.
pub proof fn law_what_a_condition_asks(s: Subject, a: Seq<char>, b: Seq<char>)
    ensures
        holds(MatchView::DirNamed { dir: a }, s) <==> s.is_dir && path::name_text(s.path) == a,
        holds(MatchView::DirBesideSibling { dir: a, sibling: b }, s) <==> s.is_dir
            && path::name_text(s.path) == a && s.siblings.contains(b),
        holds(MatchView::DirContainingFile { file: a }, s) <==> s.is_dir && s.children.contains(a),
        holds(MatchView::PathSuffix { suffix: a }, s) <==> exists|front: Seq<char>|
            text::lossy_utf8(s.path) == #[trigger] (front + a),
        holds(MatchView::NameSuffix { suffix: a }, s) <==> exists|front: Seq<char>|
            path::name_text(s.path) == #[trigger] (front + a),
        holds(MatchView::NameGlob { pattern: a }, s) <==> glob::globs(a, path::name_text(s.path)),
{
    text::law_a_suffix_stands_at_the_end(text::lossy_utf8(s.path), a);
    text::law_a_suffix_stands_at_the_end(path::name_text(s.path), a);
}

/// A condition sees the path it is asked about, whether that is a directory, and
/// the markers that were found, each by its name.
pub proof fn law_a_subject_is_what_was_found(
    path: Seq<u8>,
    is_dir: bool,
    markers: Markers,
    name: Seq<char>,
)
    ensures
        subject(path, is_dir, markers).path == path,
        subject(path, is_dir, markers).is_dir == is_dir,
        subject(path, is_dir, markers).siblings.contains(name) <==> exists|i: int|
            0 <= i < markers.siblings@.len() && (#[trigger] markers.siblings@[i])@ == name,
        subject(path, is_dir, markers).children.contains(name) <==> exists|i: int|
            0 <= i < markers.children@.len() && (#[trigger] markers.children@[i])@ == name,
{
}

/// The match is a Rule that applies, and no Rule before it does; where there is no
/// match, no Rule applies. So a match is found exactly if some Rule applies.
pub proof fn law_the_first_rule_that_applies_is_the_match(
    rules: Seq<RuleView>,
    s: Subject,
    found: Option<usize>,
    j: int,
)
    requires
        is_first_match(rules, s, found),
        0 <= j < rules.len(),
    ensures
        found is Some ==> found->0 < rules.len() && holds(rules[found->0 as int].matches, s),
        holds(rules[j].matches, s) ==> found is Some && found->0 <= j,
{
}

/// A marker is looked for only by a condition that names it, and beside a directory
/// only by one that names the directory too.
pub proof fn law_a_condition_looks_for_its_own_marker(
    dir: Seq<char>,
    marker: Seq<char>,
    name: Seq<char>,
    wanted: Seq<char>,
    rules: Seq<RuleView>,
    path: Seq<u8>,
)
    ensures
        asks_sibling(MatchView::DirBesideSibling { dir, sibling: marker }, name, wanted) <==> dir
            == name && marker == wanted,
        asks_child(MatchView::DirContainingFile { file: marker }, wanted) <==> marker == wanted,
        !wants_sibling(rules, path, false, wanted),
        !wants_child(rules, false, wanted),
{
}

} // verus!
