//! The data-driven classification ruleset. Rules are data, not code: the curated
//! defaults below are bundled, and users may add or override Rules through a
//! config file. An Item matching no Rule becomes `Unclassified`.

use crate::classify;
use crate::classify::Subject;
use crate::model;
use crate::model::SafetyClass;
use crate::path;
use crate::text;
use vstd::prelude::*;

verus! {

/// What a [`Rule`] looks for on disk.
#[derive(Debug)]
pub enum Match {
    /// A directory whose name equals `dir`, sitting beside a file named
    /// `sibling` (e.g. `target/` next to `Cargo.toml`).
    DirBesideSibling { dir: String, sibling: String },
    /// An Item whose full path ends with `suffix`. Used for well-known cache
    /// locations.
    PathSuffix { suffix: String },
    /// A directory whose name equals `dir`, regardless of siblings
    /// (e.g. `node_modules`).
    DirNamed { dir: String },
    /// An Item (file or directory) whose own name ends with `suffix`
    /// (e.g. `.qcow2`, `.img.raw`).
    NameSuffix { suffix: String },
    /// A directory that directly contains a child file named `file`
    /// (e.g. a `PG_VERSION` marker identifying a PostgreSQL data directory).
    DirContainingFile { file: String },
    /// An Item whose own name matches a `*`/`?` glob (e.g. `*.zst`).
    NameGlob { pattern: String },
    /// Every nested condition matches.
    All { of: Vec<Match> },
    /// Any nested condition matches.
    Any { of: Vec<Match> },
}

/// What a [`Match`] says.
pub enum MatchView {
    DirBesideSibling { dir: Seq<char>, sibling: Seq<char> },
    PathSuffix { suffix: Seq<char> },
    DirNamed { dir: Seq<char> },
    NameSuffix { suffix: Seq<char> },
    DirContainingFile { file: Seq<char> },
    NameGlob { pattern: Seq<char> },
    All { of: Seq<MatchView> },
    Any { of: Seq<MatchView> },
}

/// The condition that a [`Match`] states.
pub open spec fn match_view(m: Match) -> MatchView
    decreases m,
{
    match m {
        Match::DirBesideSibling { dir, sibling } => MatchView::DirBesideSibling {
            dir: dir@,
            sibling: sibling@,
        },
        Match::PathSuffix { suffix } => MatchView::PathSuffix { suffix: suffix@ },
        Match::DirNamed { dir } => MatchView::DirNamed { dir: dir@ },
        Match::NameSuffix { suffix } => MatchView::NameSuffix { suffix: suffix@ },
        Match::DirContainingFile { file } => MatchView::DirContainingFile { file: file@ },
        Match::NameGlob { pattern } => MatchView::NameGlob { pattern: pattern@ },
        Match::All { of } => MatchView::All {
            of: Seq::new(
                of@.len(),
                |i: int|
                    if 0 <= i < of@.len() {
                        match_view(of@[i])
                    } else {
                        arbitrary()
                    },
            ),
        },
        Match::Any { of } => MatchView::Any {
            of: Seq::new(
                of@.len(),
                |i: int|
                    if 0 <= i < of@.len() {
                        match_view(of@[i])
                    } else {
                        arbitrary()
                    },
            ),
        },
    }
}

impl Clone for Match {
    fn clone(&self) -> (r: Match)
        ensures
            match_view(r) == match_view(*self),
        decreases *self,
    {
        match self {
            Match::DirBesideSibling { dir, sibling } => Match::DirBesideSibling {
                dir: dir.clone(),
                sibling: sibling.clone(),
            },
            Match::PathSuffix { suffix } => Match::PathSuffix { suffix: suffix.clone() },
            Match::DirNamed { dir } => Match::DirNamed { dir: dir.clone() },
            Match::NameSuffix { suffix } => Match::NameSuffix { suffix: suffix.clone() },
            Match::DirContainingFile { file } => Match::DirContainingFile { file: file.clone() },
            Match::NameGlob { pattern } => Match::NameGlob { pattern: pattern.clone() },
            Match::All { of } => {
                let mut list: Vec<Match> = Vec::new();
                let mut i: usize = 0;
                while i < of.len()
                    invariant
                        self is All,
                        self->All_of == *of,
                        i <= of@.len(),
                        list@.len() == i,
                        forall|j: int|
                            0 <= j < i ==> match_view(#[trigger] list@[j]) == match_view(of@[j]),
                    decreases of@.len() - i,
                {
                    assert(decreases_to!(*self => self->All_of));
                    assert(decreases_to!(*of => of@));
                    assert(decreases_to!(of@ => of@[i as int]));
                    list.push(of[i].clone());
                    i = i + 1;
                }
                let r: Match = Match::All { of: list };
                assert(match_view(r)->All_of =~= match_view(*self)->All_of);
                r
            },
            Match::Any { of } => {
                let mut list: Vec<Match> = Vec::new();
                let mut i: usize = 0;
                while i < of.len()
                    invariant
                        self is Any,
                        self->Any_of == *of,
                        i <= of@.len(),
                        list@.len() == i,
                        forall|j: int|
                            0 <= j < i ==> match_view(#[trigger] list@[j]) == match_view(of@[j]),
                    decreases of@.len() - i,
                {
                    assert(decreases_to!(*self => self->Any_of));
                    assert(decreases_to!(*of => of@));
                    assert(decreases_to!(of@ => of@[i as int]));
                    list.push(of[i].clone());
                    i = i + 1;
                }
                let r: Match = Match::Any { of: list };
                assert(match_view(r)->Any_of =~= match_view(*self)->Any_of);
                r
            },
        }
    }
}

/// A single declarative classification entry. Maps a [`Match`] to a
/// [`SafetyClass`] and, for Regenerable and Reinstallable, the commands that
/// define its Recovery Method.
#[derive(Debug)]
pub struct Rule {
    pub name: String,
    pub matches: Match,
    pub class: SafetyClass,
    /// Canonical clean command of a Regenerable or Reinstallable Item, run in its
    /// parent directory if present. `None` means reclaim falls back to a direct
    /// removal.
    pub clean_command: Option<String>,
    /// Command that recreates the Item, shown as the Recovery Method.
    pub recover_command: Option<String>,
    /// Sentence shown as Evidence when this Rule fires.
    pub evidence: String,
}

/// What a [`Rule`] says.
pub struct RuleView {
    pub name: Seq<char>,
    pub matches: MatchView,
    pub class: SafetyClass,
    pub clean_command: Option<Seq<char>>,
    pub recover_command: Option<Seq<char>>,
    pub evidence: Seq<char>,
}

/// The text of an optional command.
pub open spec fn command_view(command: Option<String>) -> Option<Seq<char>> {
    match command {
        Some(text) => Some(text@),
        None => None,
    }
}

impl View for Rule {
    type V = RuleView;

    open spec fn view(&self) -> RuleView {
        RuleView {
            name: self.name@,
            matches: match_view(self.matches),
            class: self.class,
            clean_command: command_view(self.clean_command),
            recover_command: command_view(self.recover_command),
            evidence: self.evidence@,
        }
    }
}

impl Clone for Rule {
    fn clone(&self) -> (r: Rule)
        ensures
            r@ == self@,
    {
        Rule {
            name: self.name.clone(),
            matches: self.matches.clone(),
            class: self.class,
            clean_command: copied(&self.clean_command),
            recover_command: copied(&self.recover_command),
            evidence: self.evidence.clone(),
        }
    }
}

/// An optional command once more.
fn copied(command: &Option<String>) -> (r: Option<String>)
    ensures
        command_view(r) == command_view(*command),
{
    match command {
        Some(text) => Some(text.clone()),
        None => None,
    }
}

/// The collection of Rules the classifier applies, in the order it tries them.
#[derive(Debug, Default)]
pub struct Ruleset {
    pub rules: Vec<Rule>,
}

impl View for Ruleset {
    type V = Seq<RuleView>;

    open spec fn view(&self) -> Seq<RuleView> {
        Seq::new(self.rules@.len(), |i: int| self.rules@[i]@)
    }
}

impl Clone for Ruleset {
    fn clone(&self) -> (r: Ruleset)
        ensures
            r@ == self@,
    {
        let mut rules: Vec<Rule> = Vec::new();
        let mut i: usize = 0;
        while i < self.rules.len()
            invariant
                i <= self.rules@.len(),
                rules@.len() == i,
                forall|j: int| 0 <= j < i ==> (#[trigger] rules@[j])@ == self.rules@[j]@,
            decreases self.rules@.len() - i,
        {
            rules.push(self.rules[i].clone());
            i = i + 1;
        }
        let r: Ruleset = Ruleset { rules };
        assert(r@ =~= self@);
        r
    }
}

/// A bundled Rule that recognizes a directory by the manifest beside it.
pub open spec fn beside_rule(
    name: Seq<char>,
    dir: Seq<char>,
    sibling: Seq<char>,
    clean_command: Seq<char>,
    recover_command: Seq<char>,
    evidence: Seq<char>,
) -> RuleView {
    RuleView {
        name,
        matches: MatchView::DirBesideSibling { dir, sibling },
        class: SafetyClass::Regenerable,
        clean_command: Some(clean_command),
        recover_command: Some(recover_command),
        evidence,
    }
}

/// A bundled Rule that carries no commands.
pub open spec fn plain_rule(
    name: Seq<char>,
    matches: MatchView,
    class: SafetyClass,
    evidence: Seq<char>,
) -> RuleView {
    RuleView { name, matches, class, clean_command: None, recover_command: None, evidence }
}

/// The curated Rules, in order.
pub open spec fn default_rules() -> Seq<RuleView> {
    seq![
        beside_rule(
            "rust-target"@,
            "target"@,
            "Cargo.toml"@,
            "cargo clean"@,
            "cargo build"@,
            "Cargo.toml sits beside this target/ — Rust build output."@,
        ),
        beside_rule(
            "flutter-build"@,
            "build"@,
            "pubspec.yaml"@,
            "flutter clean"@,
            "flutter pub get && flutter build"@,
            "pubspec.yaml sits beside this build/ — Flutter build output."@,
        ),
        beside_rule(
            "next-build"@,
            ".next"@,
            "package.json"@,
            "rm -rf .next"@,
            "next build"@,
            "package.json sits beside this .next/ — Next.js build output."@,
        ),
        RuleView {
            name: "node-modules"@,
            matches: MatchView::DirNamed { dir: "node_modules"@ },
            class: SafetyClass::Reinstallable,
            clean_command: None,
            recover_command: Some("npm install"@),
            evidence: "node_modules — restorable by the package manager."@,
        },
        plain_rule(
            "npm-cache"@,
            MatchView::PathSuffix { suffix: ".npm"@ },
            SafetyClass::Cache,
            "npm download cache — refilled automatically on next install."@,
        ),
        plain_rule(
            "uv-cache"@,
            MatchView::PathSuffix { suffix: ".cache/uv"@ },
            SafetyClass::Cache,
            "uv cache — refilled automatically on next use."@,
        ),
        RuleView {
            name: "treehouse-workspaces"@,
            matches: MatchView::DirNamed { dir: ".treehouse"@ },
            class: SafetyClass::Regenerable,
            clean_command: Some("rm -rf .treehouse"@),
            recover_command: Some("treehouse"@),
            evidence: ".treehouse holds isolated Treehouse checkouts — recreated per workspace."@,
        },
        plain_rule(
            "vm-disk-image-raw"@,
            MatchView::NameSuffix { suffix: ".img.raw"@ },
            SafetyClass::Irreplaceable,
            "A raw VM/container disk image (.img.raw) — live volume, not regenerable from any command."@,
        ),
        plain_rule(
            "vm-disk-image-qcow2"@,
            MatchView::NameSuffix { suffix: ".qcow2"@ },
            SafetyClass::Irreplaceable,
            "A QEMU/qcow2 VM disk image — live volume, not regenerable from any command."@,
        ),
        plain_rule(
            "vm-disk-image-vdi"@,
            MatchView::NameSuffix { suffix: ".vdi"@ },
            SafetyClass::Irreplaceable,
            "A VirtualBox VDI disk image — live volume, not regenerable from any command."@,
        ),
        plain_rule(
            "vm-disk-image-vmdk"@,
            MatchView::NameSuffix { suffix: ".vmdk"@ },
            SafetyClass::Irreplaceable,
            "A VMware VMDK disk image — live volume, not regenerable from any command."@,
        ),
        plain_rule(
            "postgres-data-dir"@,
            MatchView::DirContainingFile { file: "PG_VERSION"@ },
            SafetyClass::Irreplaceable,
            "A PG_VERSION marker sits here — this is a live PostgreSQL data directory."@,
        ),
        plain_rule(
            "orbstack-docker-data"@,
            MatchView::PathSuffix { suffix: "OrbStack/docker"@ },
            SafetyClass::Irreplaceable,
            "OrbStack keeps its Docker images and volumes here — live data, not regenerable."@,
        ),
    ]
}

/// An optional command out of an optional text.
fn command(text: Option<&str>) -> (r: Option<String>)
    ensures
        command_view(r) == (match text {
            Some(t) => Some(t@),
            None => None::<Seq<char>>,
        }),
{
    match text {
        Some(t) => Some(t.to_owned()),
        None => None,
    }
}

fn rule(
    name: &str,
    matches: Match,
    class: SafetyClass,
    clean: Option<&str>,
    recover: Option<&str>,
    evidence: &str,
) -> (r: Rule)
    ensures
        r@ == (RuleView {
            name: name@,
            matches: match_view(matches),
            class,
            clean_command: match clean {
                Some(t) => Some(t@),
                None => None,
            },
            recover_command: match recover {
                Some(t) => Some(t@),
                None => None,
            },
            evidence: evidence@,
        }),
{
    Rule {
        name: name.to_owned(),
        matches,
        class,
        clean_command: command(clean),
        recover_command: command(recover),
        evidence: evidence.to_owned(),
    }
}

fn beside(dir: &str, sibling: &str) -> (r: Match)
    ensures
        match_view(r) == (MatchView::DirBesideSibling { dir: dir@, sibling: sibling@ }),
{
    Match::DirBesideSibling { dir: dir.to_owned(), sibling: sibling.to_owned() }
}

fn named(dir: &str) -> (r: Match)
    ensures
        match_view(r) == (MatchView::DirNamed { dir: dir@ }),
{
    Match::DirNamed { dir: dir.to_owned() }
}

fn path_suffix(suffix: &str) -> (r: Match)
    ensures
        match_view(r) == (MatchView::PathSuffix { suffix: suffix@ }),
{
    Match::PathSuffix { suffix: suffix.to_owned() }
}

fn name_suffix(suffix: &str) -> (r: Match)
    ensures
        match_view(r) == (MatchView::NameSuffix { suffix: suffix@ }),
{
    Match::NameSuffix { suffix: suffix.to_owned() }
}

fn containing(file: &str) -> (r: Match)
    ensures
        match_view(r) == (MatchView::DirContainingFile { file: file@ }),
{
    Match::DirContainingFile { file: file.to_owned() }
}

impl Ruleset {
    /// The curated default Ruleset shipped with the app.
    pub fn defaults() -> (r: Ruleset)
        ensures
            r@ == default_rules(),
    {
        let mut rules: Vec<Rule> = Vec::new();
        rules.push(
            rule(
                "rust-target",
                beside("target", "Cargo.toml"),
                SafetyClass::Regenerable,
                Some("cargo clean"),
                Some("cargo build"),
                "Cargo.toml sits beside this target/ — Rust build output.",
            ),
        );
        rules.push(
            rule(
                "flutter-build",
                beside("build", "pubspec.yaml"),
                SafetyClass::Regenerable,
                Some("flutter clean"),
                Some("flutter pub get && flutter build"),
                "pubspec.yaml sits beside this build/ — Flutter build output.",
            ),
        );
        rules.push(
            rule(
                "next-build",
                beside(".next", "package.json"),
                SafetyClass::Regenerable,
                Some("rm -rf .next"),
                Some("next build"),
                "package.json sits beside this .next/ — Next.js build output.",
            ),
        );
        rules.push(
            rule(
                "node-modules",
                named("node_modules"),
                SafetyClass::Reinstallable,
                None,
                Some("npm install"),
                "node_modules — restorable by the package manager.",
            ),
        );
        rules.push(
            rule(
                "npm-cache",
                path_suffix(".npm"),
                SafetyClass::Cache,
                None,
                None,
                "npm download cache — refilled automatically on next install.",
            ),
        );
        rules.push(
            rule(
                "uv-cache",
                path_suffix(".cache/uv"),
                SafetyClass::Cache,
                None,
                None,
                "uv cache — refilled automatically on next use.",
            ),
        );
        rules.push(
            rule(
                "treehouse-workspaces",
                named(".treehouse"),
                SafetyClass::Regenerable,
                Some("rm -rf .treehouse"),
                Some("treehouse"),
                ".treehouse holds isolated Treehouse checkouts — recreated per workspace.",
            ),
        );
        // Irreplaceable data is Protected. These make real, non-recoverable data
        // recognized as data rather than relying on the Unclassified backstop.
        // None carry a Recovery Method; none are ever offered for deletion.
        rules.push(
            rule(
                "vm-disk-image-raw",
                name_suffix(".img.raw"),
                SafetyClass::Irreplaceable,
                None,
                None,
                "A raw VM/container disk image (.img.raw) — live volume, not regenerable from any command.",
            ),
        );
        rules.push(
            rule(
                "vm-disk-image-qcow2",
                name_suffix(".qcow2"),
                SafetyClass::Irreplaceable,
                None,
                None,
                "A QEMU/qcow2 VM disk image — live volume, not regenerable from any command.",
            ),
        );
        rules.push(
            rule(
                "vm-disk-image-vdi",
                name_suffix(".vdi"),
                SafetyClass::Irreplaceable,
                None,
                None,
                "A VirtualBox VDI disk image — live volume, not regenerable from any command.",
            ),
        );
        rules.push(
            rule(
                "vm-disk-image-vmdk",
                name_suffix(".vmdk"),
                SafetyClass::Irreplaceable,
                None,
                None,
                "A VMware VMDK disk image — live volume, not regenerable from any command.",
            ),
        );
        rules.push(
            rule(
                "postgres-data-dir",
                containing("PG_VERSION"),
                SafetyClass::Irreplaceable,
                None,
                None,
                "A PG_VERSION marker sits here — this is a live PostgreSQL data directory.",
            ),
        );
        rules.push(
            rule(
                "orbstack-docker-data",
                path_suffix("OrbStack/docker"),
                SafetyClass::Irreplaceable,
                None,
                None,
                "OrbStack keeps its Docker images and volumes here — live data, not regenerable.",
            ),
        );
        let r: Ruleset = Ruleset { rules };
        assert(r@ =~= default_rules());
        r
    }

    /// Puts the user's Rules before the ones already here, so that user entries
    /// win on first match.
    pub fn with_user_rules(self, user: Ruleset) -> (r: Ruleset)
        ensures
            r@ == user@ + self@,
    {
        let mut rest: Vec<Rule> = self.rules;
        let mut merged: Vec<Rule> = user.rules;
        merged.append(&mut rest);
        let r: Ruleset = Ruleset { rules: merged };
        assert(r@ =~= user@ + self@);
        r
    }
}

/// Each bundled Regenerable Rule carries the command that cleans what it matches
/// and the one that brings it back; each Reinstallable Rule carries the latter.
pub proof fn law_regenerable_rules_carry_their_commands(i: int)
    requires
        0 <= i < default_rules().len(),
    ensures
        default_rules()[i].class == SafetyClass::Regenerable
            ==> default_rules()[i].clean_command is Some,
        default_rules()[i].class == SafetyClass::Regenerable || default_rules()[i].class
            == SafetyClass::Reinstallable ==> default_rules()[i].recover_command is Some,
{
}

/// What the bundled Rules make of a path, told by what is seen of it: the first of
/// these that applies decides its class, the command that cleans it, the one that
/// brings it back, and the evidence. What none of them knows is not matched.
pub proof fn law_the_bundled_rules(s: Subject, found: Option<usize>)
    requires
        classify::is_first_match(default_rules(), s, found),
    ensures
        ({
            let name = path::name_text(s.path);
            let whole = text::lossy_utf8(s.path);
            let is = |
                class: SafetyClass,
                clean: Option<Seq<char>>,
                recover: Option<Seq<char>>,
                evidence: Seq<char>,
            |
                found is Some && default_rules()[found->0 as int].class == class
                    && default_rules()[found->0 as int].clean_command == clean
                    && default_rules()[found->0 as int].recover_command == recover
                    && default_rules()[found->0 as int].evidence == evidence;
            let data = |evidence: Seq<char>| is(SafetyClass::Irreplaceable, None, None, evidence);
            if s.is_dir && name == "target"@ && s.siblings.contains("Cargo.toml"@) {
                is(
                    SafetyClass::Regenerable,
                    Some("cargo clean"@),
                    Some("cargo build"@),
                    "Cargo.toml sits beside this target/ — Rust build output."@,
                )
            } else if s.is_dir && name == "build"@ && s.siblings.contains("pubspec.yaml"@) {
                is(
                    SafetyClass::Regenerable,
                    Some("flutter clean"@),
                    Some("flutter pub get && flutter build"@),
                    "pubspec.yaml sits beside this build/ — Flutter build output."@,
                )
            } else if s.is_dir && name == ".next"@ && s.siblings.contains("package.json"@) {
                is(
                    SafetyClass::Regenerable,
                    Some("rm -rf .next"@),
                    Some("next build"@),
                    "package.json sits beside this .next/ — Next.js build output."@,
                )
            } else if s.is_dir && name == "node_modules"@ {
                is(
                    SafetyClass::Reinstallable,
                    None,
                    Some("npm install"@),
                    "node_modules — restorable by the package manager."@,
                )
            } else if text::has_suffix(whole, ".npm"@) {
                is(
                    SafetyClass::Cache,
                    None,
                    None,
                    "npm download cache — refilled automatically on next install."@,
                )
            } else if text::has_suffix(whole, ".cache/uv"@) {
                is(
                    SafetyClass::Cache,
                    None,
                    None,
                    "uv cache — refilled automatically on next use."@,
                )
            } else if s.is_dir && name == ".treehouse"@ {
                is(
                    SafetyClass::Regenerable,
                    Some("rm -rf .treehouse"@),
                    Some("treehouse"@),
                    ".treehouse holds isolated Treehouse checkouts — recreated per workspace."@,
                )
            } else if text::has_suffix(name, ".img.raw"@) {
                data(
                    "A raw VM/container disk image (.img.raw) — live volume, not regenerable from any command."@,
                )
            } else if text::has_suffix(name, ".qcow2"@) {
                data(
                    "A QEMU/qcow2 VM disk image — live volume, not regenerable from any command."@,
                )
            } else if text::has_suffix(name, ".vdi"@) {
                data(
                    "A VirtualBox VDI disk image — live volume, not regenerable from any command."@,
                )
            } else if text::has_suffix(name, ".vmdk"@) {
                data(
                    "A VMware VMDK disk image — live volume, not regenerable from any command."@,
                )
            } else if s.is_dir && s.children.contains("PG_VERSION"@) {
                data(
                    "A PG_VERSION marker sits here — this is a live PostgreSQL data directory."@,
                )
            } else if text::has_suffix(whole, "OrbStack/docker"@) {
                data(
                    "OrbStack keeps its Docker images and volumes here — live data, not regenerable."@,
                )
            } else {
                found is None
            }
        }),
{
    let rules = default_rules();
    assert(rules.len() == 13);
    assert(rules[0].matches is DirBesideSibling && rules[1].matches is DirBesideSibling
        && rules[2].matches is DirBesideSibling && rules[3].matches is DirNamed
        && rules[4].matches is PathSuffix && rules[5].matches is PathSuffix
        && rules[6].matches is DirNamed && rules[7].matches is NameSuffix && rules[8].matches
        is NameSuffix && rules[9].matches is NameSuffix && rules[10].matches is NameSuffix
        && rules[11].matches is DirContainingFile && rules[12].matches is PathSuffix);
}

/// Only what is known to come back is ever offered by the bundled Rules: build
/// output beside its manifest, installed dependencies, workspaces, and two caches.
pub proof fn law_bundled_rules_offer_only_what_comes_back(s: Subject, found: Option<usize>)
    requires
        classify::is_first_match(default_rules(), s, found),
        found is Some,
        default_rules()[found->0 as int].class != SafetyClass::Irreplaceable,
    ensures
        ({
            let name = path::name_text(s.path);
            let whole = text::lossy_utf8(s.path);
            ||| s.is_dir && name == "target"@ && s.siblings.contains("Cargo.toml"@)
            ||| s.is_dir && name == "build"@ && s.siblings.contains("pubspec.yaml"@)
            ||| s.is_dir && name == ".next"@ && s.siblings.contains("package.json"@)
            ||| s.is_dir && name == "node_modules"@
            ||| s.is_dir && name == ".treehouse"@
            ||| text::has_suffix(whole, ".npm"@)
            ||| text::has_suffix(whole, ".cache/uv"@)
        }),
{
    law_the_bundled_rules(s, found);
}

proof fn lemma_no_suffix(s: Seq<char>, suffix: Seq<char>)
    requires
        s.len() > 0,
        suffix.len() > 0,
        s.last() != suffix.last(),
    ensures
        !text::has_suffix(s, suffix),
{
    if text::has_suffix(s, suffix) {
        let tail = s.subrange(s.len() - suffix.len(), s.len() as int);
        assert(tail.last() == s.last());
    }
}

/// A disk image is Protected by the bundled Rules, whatever lies around it, unless
/// its path is that of one of the two caches.
pub proof fn law_disk_images_are_protected(s: Subject, found: Option<usize>)
    requires
        classify::is_first_match(default_rules(), s, found),
        text::has_suffix(path::name_text(s.path), ".img.raw"@) || text::has_suffix(
            path::name_text(s.path),
            ".qcow2"@,
        ) || text::has_suffix(path::name_text(s.path), ".vdi"@) || text::has_suffix(
            path::name_text(s.path),
            ".vmdk"@,
        ),
        !text::has_suffix(text::lossy_utf8(s.path), ".npm"@),
        !text::has_suffix(text::lossy_utf8(s.path), ".cache/uv"@),
    ensures
        found is Some,
        default_rules()[found->0 as int].class == SafetyClass::Irreplaceable,
        !model::reclaimable_class(default_rules()[found->0 as int].class),
        !model::override_class(default_rules()[found->0 as int].class),
{
    let name = path::name_text(s.path);
    law_the_bundled_rules(s, found);
    reveal_strlit("target");
    reveal_strlit("build");
    reveal_strlit(".next");
    reveal_strlit("node_modules");
    reveal_strlit(".treehouse");
    reveal_strlit(".img.raw");
    reveal_strlit(".qcow2");
    reveal_strlit(".vdi");
    reveal_strlit(".vmdk");
    if name == "target"@ || name == "build"@ || name == ".next"@ || name == "node_modules"@ || name
        == ".treehouse"@ {
        lemma_no_suffix(name, ".img.raw"@);
        lemma_no_suffix(name, ".qcow2"@);
        lemma_no_suffix(name, ".vdi"@);
        lemma_no_suffix(name, ".vmdk"@);
    }
}

/// A database is Protected by the bundled Rules: a directory with the marker of
/// one, unless its own name or path says that it is something that comes back.
pub proof fn law_databases_are_protected(s: Subject, found: Option<usize>)
    requires
        classify::is_first_match(default_rules(), s, found),
        s.is_dir,
        s.children.contains("PG_VERSION"@),
        path::name_text(s.path) != "target"@,
        path::name_text(s.path) != "build"@,
        path::name_text(s.path) != ".next"@,
        path::name_text(s.path) != "node_modules"@,
        path::name_text(s.path) != ".treehouse"@,
        !text::has_suffix(text::lossy_utf8(s.path), ".npm"@),
        !text::has_suffix(text::lossy_utf8(s.path), ".cache/uv"@),
    ensures
        found is Some,
        default_rules()[found->0 as int].class == SafetyClass::Irreplaceable,
{
    law_the_bundled_rules(s, found);
}

/// A Rule is applied as it was written: its condition, its class, its commands and
/// its evidence; and Rules in the order in which they stand.
pub proof fn law_a_rule_is_applied_as_written(ruleset: Ruleset, i: int)
    requires
        0 <= i < ruleset.rules@.len(),
    ensures
        ruleset@.len() == ruleset.rules@.len(),
        ({
            let rule = ruleset.rules@[i];
            let seen = ruleset@[i];
            &&& seen.name == rule.name@ && seen.class == rule.class && seen.evidence
                == rule.evidence@ && seen.matches == match_view(rule.matches)
            &&& seen.clean_command is Some <==> rule.clean_command is Some
            &&& rule.clean_command is Some ==> seen.clean_command->0 == rule.clean_command->0@
            &&& seen.recover_command is Some <==> rule.recover_command is Some
            &&& rule.recover_command is Some ==> seen.recover_command->0
                == rule.recover_command->0@
        }),
{
}

/// A condition is applied as it was written, kind by kind.
pub proof fn law_a_condition_is_applied_as_written(m: Match)
    ensures
        match m {
            Match::DirBesideSibling { dir, sibling } => match_view(m) == (
            MatchView::DirBesideSibling { dir: dir@, sibling: sibling@ }),
            Match::PathSuffix { suffix } => match_view(m) == (MatchView::PathSuffix {
                suffix: suffix@,
            }),
            Match::DirNamed { dir } => match_view(m) == (MatchView::DirNamed { dir: dir@ }),
            Match::NameSuffix { suffix } => match_view(m) == (MatchView::NameSuffix {
                suffix: suffix@,
            }),
            Match::DirContainingFile { file } => match_view(m) == (MatchView::DirContainingFile {
                file: file@,
            }),
            Match::NameGlob { pattern } => match_view(m) == (MatchView::NameGlob {
                pattern: pattern@,
            }),
            Match::All { of } => match_view(m) is All && match_view(m)->All_of.len() == of@.len()
                && forall|i: int|
                0 <= i < of@.len() ==> #[trigger] match_view(m)->All_of[i] == match_view(of@[i]),
            Match::Any { of } => match_view(m) is Any && match_view(m)->Any_of.len() == of@.len()
                && forall|i: int|
                0 <= i < of@.len() ==> #[trigger] match_view(m)->Any_of[i] == match_view(of@[i]),
        },
{
}

} // verus!
