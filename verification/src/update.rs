//! Update check: reads the latest published release from the address that the
//! `releases/latest` link leads to, and tells whether it is newer. Fails soft: an
//! answer that cannot be understood is a failed check, never a wrong one.

use crate::text;
use crate::text::CharKind;
use std::cmp::Ordering;
use vstd::prelude::*;

verus! {

broadcast use vstd::string::group_string_axioms;

/// The advertised upgrade command. Printed verbatim when a newer release exists
/// so the user can reinstall in one line.
pub const INSTALL_ONE_LINER: &'static str = "curl -fsSL https://ez4t.github.io/macclean/install.sh | sh";

/// The link that leads to the latest release, whose address ends in its tag.
pub const LATEST_RELEASE_URL: &'static str = "https://github.com/Ez4T/macclean/releases/latest";

/// Hard ceiling on the network request so the check can never hang.
pub const FETCH_TIMEOUT_SECS: u32 = 5;

/// A plain `MAJOR.MINOR.PATCH` version, ordered by major, then minor, then patch:
/// exactly "is the released tag newer than ours?".
#[derive(Debug, Clone, Copy, PartialEq, Eq, Ord, Structural)]
pub struct Version {
    pub major: u32,
    pub minor: u32,
    pub patch: u32,
}

/// Whether `a` is a later version than `b`.
pub open spec fn newer(a: Version, b: Version) -> bool {
    ||| a.major > b.major
    ||| a.major == b.major && a.minor > b.minor
    ||| a.major == b.major && a.minor == b.minor && a.patch > b.patch
}

impl PartialOrd for Version {
    fn partial_cmp(&self, other: &Version) -> (r: Option<Ordering>) {
        if self.major != other.major {
            if self.major < other.major {
                Some(Ordering::Less)
            } else {
                Some(Ordering::Greater)
            }
        } else if self.minor != other.minor {
            if self.minor < other.minor {
                Some(Ordering::Less)
            } else {
                Some(Ordering::Greater)
            }
        } else if self.patch != other.patch {
            if self.patch < other.patch {
                Some(Ordering::Less)
            } else {
                Some(Ordering::Greater)
            }
        } else {
            Some(Ordering::Equal)
        }
    }
}

impl vstd::std_specs::cmp::PartialOrdSpecImpl for Version {
    open spec fn obeys_partial_cmp_spec() -> bool {
        true
    }

    open spec fn partial_cmp_spec(&self, other: &Version) -> Option<Ordering> {
        if newer(*self, *other) {
            Some(Ordering::Greater)
        } else if newer(*other, *self) {
            Some(Ordering::Less)
        } else {
            Some(Ordering::Equal)
        }
    }
}

/// The tag of a version.
pub open spec fn version_tag(v: Version) -> Seq<char> {
    "v"@ + text::decimal(v.major as nat) + "."@ + text::decimal(v.minor as nat) + "."@
        + text::decimal(v.patch as nat)
}

/// A tag without the `v` it may start with.
pub open spec fn bare_tag(tag: Seq<char>) -> Seq<char> {
    if tag.len() > 0 && tag[0] == 'v' {
        tag.skip(1)
    } else {
        tag
    }
}

/// The version that a tag names: three numbers separated by dots, with or without
/// one `v` before them, white space around it aside.
pub open spec fn parsed_tag(tag: Seq<char>) -> Option<Version> {
    let core = bare_tag(text::trimmed(tag));
    let fields = text::split_on(core, '.');
    if fields.len() != 3 {
        None
    } else {
        match (
            text::field_number(fields[0]),
            text::field_number(fields[1]),
            text::field_number(fields[2]),
        ) {
            (Some(major), Some(minor), Some(patch)) => Some(
                Version { major: major as u32, minor: minor as u32, patch: patch as u32 },
            ),
            _ => None,
        }
    }
}

impl Version {
    /// The running build's version, from the version of its package.
    pub fn current(pkg_version: &str) -> (r: Version)
        requires
            parsed_tag(pkg_version@) is Some,
        ensures
            Some(r) == parsed_tag(pkg_version@),
    {
        match parse_tag(pkg_version) {
            Some(version) => version,
            None => Version { major: 0, minor: 0, patch: 0 },
        }
    }

    /// Render as a `vX.Y.Z` tag for display.
    pub fn tag(&self) -> (r: String)
        ensures
            r@ == version_tag(*self),
    {
        "v".to_owned().concat(text::decimal_text(self.major as u64).as_str()).concat(".").concat(
            text::decimal_text(self.minor as u64).as_str(),
        ).concat(".").concat(text::decimal_text(self.patch as u64).as_str())
    }
}

/// Drops the `v` that a tag may start with.
fn without_v(tag: &str) -> (r: String)
    ensures
        r@ == bare_tag(tag@),
{
    let chars: Vec<char> = text::chars_of(tag);
    let from: usize = if chars.len() > 0 && chars[0] == 'v' {
        1
    } else {
        0
    };
    assert(bare_tag(tag@) =~= chars@.subrange(from as int, chars@.len() as int));
    text::text_of(&chars, from, chars.len())
}

/// Parse a `vMAJOR.MINOR.PATCH` (or bare `MAJOR.MINOR.PATCH`) tag. Returns `None`
/// for anything malformed (an extra dotted segment, a non-numeric component, a
/// second `v`, a prerelease suffix) so every caller fails soft.
pub fn parse_tag(tag: &str) -> (r: Option<Version>)
    ensures
        r == parsed_tag(tag@),
{
    let trimmed: String = text::trim_text(tag);
    let core: String = without_v(trimmed.as_str());
    let parts: Vec<String> = text::fields_of(core.as_str(), '.');
    if parts.len() != 3 {
        return None;
    }
    let ghost fields = text::split_on(core@, '.');
    assert(parts@[0]@ == fields[0] && parts@[1]@ == fields[1] && parts@[2]@ == fields[2]);
    match (
        text::number_of(parts[0].as_str()),
        text::number_of(parts[1].as_str()),
        text::number_of(parts[2].as_str()),
    ) {
        (Some(major), Some(minor), Some(patch)) => Some(Version { major, minor, patch }),
        _ => None,
    }
}

/// The tag at the end of the address of a release: what follows its last slash,
/// if `/tag/` stands before it. Slashes at the end do not count.
pub open spec fn release_tag(url: Seq<char>) -> Option<Seq<char>> {
    let core = text::trimmed_back(url, CharKind::Only('/'));
    let tag = text::split_on(core, '/').last();
    if tag.len() > 0 && text::has_suffix(core, "/tag/"@ + tag) {
        Some(tag)
    } else {
        None
    }
}

/// Pull the tag out of the address of a release, e.g.
/// `https://github.com/Ez4T/macclean/releases/tag/v0.2.0` → `v0.2.0`. Returns
/// `None` if it isn't a `/tag/<name>` form so the caller fails soft.
pub fn tag_from_release_url(url: &str) -> (r: Option<String>)
    ensures
        match r {
            Some(tag) => release_tag(url@) == Some(tag@),
            None => release_tag(url@) is None,
        },
{
    let core: String = text::trim_back(url, CharKind::Only('/'));
    let mut parts: Vec<String> = text::fields_of(core.as_str(), '/');
    match parts.pop() {
        Some(tag) => {
            let ghost fields = text::split_on(core@, '/');
            assert(tag@ == fields.last());
            let first: Vec<char> = text::chars_of(tag.as_str());
            let ending: String = "/tag/".to_owned().concat(tag.as_str());
            if first.len() > 0 && text::ends_with(core.as_str(), ending.as_str()) {
                Some(tag)
            } else {
                None
            }
        },
        None => None,
    }
}

/// What came of asking for the latest release.
#[derive(Debug)]
pub enum Fetched {
    /// The request could not be made.
    NotRun { error: String },
    /// The request failed.
    Refused,
    /// The address that the link led to.
    Resolved { output: Vec<u8> },
}

/// The latest release, or why it is not known.
pub open spec fn latest_of(fetched: Fetched) -> Result<Version, Seq<char>> {
    match fetched {
        Fetched::NotRun { error } => Err("could not run curl: "@ + error@),
        Fetched::Refused => Err("network request failed"@),
        Fetched::Resolved { output } => match release_tag(
            text::trimmed(text::lossy_utf8(output@)),
        ) {
            Some(tag) => match parsed_tag(tag) {
                Some(version) => Ok(version),
                None => Err("unrecognized release tag: "@ + tag),
            },
            None => Err("could not read the release tag"@),
        },
    }
}

/// Reads the latest release out of the answer. Any failure is a reason that
/// becomes a fail-soft "couldn't check".
pub fn fetch_latest_version(fetched: Fetched) -> (r: Result<Version, String>)
    ensures
        match r {
            Ok(version) => latest_of(fetched) == Ok::<Version, Seq<char>>(version),
            Err(reason) => latest_of(fetched) == Err::<Version, Seq<char>>(reason@),
        },
{
    match fetched {
        Fetched::NotRun { error } => Err("could not run curl: ".to_owned().concat(error.as_str())),
        Fetched::Refused => Err("network request failed".to_owned()),
        Fetched::Resolved { output } => {
            let url: String = text::lossy_text(output.as_slice());
            let url: String = text::trim_text(url.as_str());
            match tag_from_release_url(url.as_str()) {
                Some(tag) => match parse_tag(tag.as_str()) {
                    Some(version) => Ok(version),
                    None => Err("unrecognized release tag: ".to_owned().concat(tag.as_str())),
                },
                None => Err("could not read the release tag".to_owned()),
            }
        },
    }
}

/// The outcome of an update check. `Failed` carries a short reason.
#[derive(Debug, PartialEq, Eq)]
pub enum UpdateCheck {
    UpToDate { current: Version },
    Newer { current: Version, latest: Version },
    Failed { reason: String },
}

impl Clone for UpdateCheck {
    fn clone(&self) -> (r: UpdateCheck)
        ensures
            match *self {
                UpdateCheck::Failed { reason } => r is Failed && r->reason@ == reason@,
                _ => r == *self,
            },
    {
        match self {
            UpdateCheck::UpToDate { current } => UpdateCheck::UpToDate { current: *current },
            UpdateCheck::Newer { current, latest } => UpdateCheck::Newer {
                current: *current,
                latest: *latest,
            },
            UpdateCheck::Failed { reason } => UpdateCheck::Failed { reason: reason.clone() },
        }
    }
}

/// The reusable update-check brain: compare the latest released tag to the
/// running build. Fails soft.
pub fn check_for_update(current: Version, fetched: Fetched) -> (r: UpdateCheck)
    ensures
        match latest_of(fetched) {
            Ok(latest) => if newer(latest, current) {
                r == (UpdateCheck::Newer { current, latest })
            } else {
                r == (UpdateCheck::UpToDate { current })
            },
            Err(reason) => r is Failed && r->reason@ == reason,
        },
{
    match fetch_latest_version(fetched) {
        Ok(latest) => if latest > current {
            UpdateCheck::Newer { current, latest }
        } else {
            UpdateCheck::UpToDate { current }
        },
        Err(reason) => UpdateCheck::Failed { reason },
    }
}

/// What the user is told of an update check.
pub open spec fn check_text(check: UpdateCheck) -> Seq<char> {
    match check {
        UpdateCheck::UpToDate { current } => "macclean "@ + version_tag(current)
            + " is up to date."@,
        UpdateCheck::Newer { latest, .. } => "A newer version "@ + version_tag(latest)
            + " is available — reinstall:\n  "@ + INSTALL_ONE_LINER@,
        UpdateCheck::Failed { reason } => "Couldn't check for updates ("@ + reason@ + ")."@,
    }
}

/// What to print for `--check-update`. A failed check is informational, not an
/// error.
pub fn check_update_text(check: &UpdateCheck) -> (r: String)
    ensures
        r@ == check_text(*check),
{
    match check {
        UpdateCheck::UpToDate { current } => "macclean ".to_owned().concat(
            current.tag().as_str(),
        ).concat(" is up to date."),
        UpdateCheck::Newer { latest, .. } => "A newer version ".to_owned().concat(
            latest.tag().as_str(),
        ).concat(" is available — reinstall:\n  ").concat(INSTALL_ONE_LINER),
        UpdateCheck::Failed { reason } => "Couldn't check for updates (".to_owned().concat(
            reason.as_str(),
        ).concat(")."),
    }
}

/// A version reads back from its own tag.
pub proof fn law_tag_round_trips(v: Version)
    ensures
        parsed_tag(version_tag(v)) == Some(v),
{
    let tag = version_tag(v);
    let major = text::decimal(v.major as nat);
    let minor = text::decimal(v.minor as nat);
    let patch = text::decimal(v.patch as nat);
    text::law_decimal_round_trips(v.major as nat);
    text::law_decimal_round_trips(v.minor as nat);
    text::law_decimal_round_trips(v.patch as nat);
    reveal_strlit("v");
    reveal_strlit(".");
    assert(tag[0] == 'v');
    assert(tag.last() == patch.last());
    assert(patch.last() == patch[patch.len() - 1]);
    assert(text::leading(tag, CharKind::White) == 0);
    assert(tag.skip(0) =~= tag);
    assert(text::trailing(tag, CharKind::White) == 0);
    assert(tag.take(tag.len() as int) =~= tag);
    let core = tag.drop_first();
    assert(core[0] == major[0]);
    assert(tag.skip(1) =~= core);
    assert(bare_tag(text::trimmed(tag)) == core);
    let front = major.push('.') + minor;
    assert(core =~= front.push('.') + patch);
    text::lemma_split_field(front, patch, '.');
    text::lemma_split_field(major, minor, '.');
    text::lemma_split_field(Seq::empty(), major, '.');
    let fields = text::split_on(core, '.');
    assert(fields =~= seq![major, minor, patch]);
    assert(major[0] != '+' && minor[0] != '+' && patch[0] != '+');
}

/// A prerelease is not a version, so it never surfaces as an update: no tag with a
/// dash in it is one.
pub proof fn law_a_prerelease_is_no_version(tag: Seq<char>)
    requires
        tag.contains('-'),
    ensures
        parsed_tag(tag) is None,
{
    let front = text::trimmed_front(tag, CharKind::White);
    text::lemma_trim_front_keeps(tag, CharKind::White, '-');
    text::lemma_trim_back_keeps(front, CharKind::White, '-');
    let trimmed = text::trimmed(tag);
    let core = bare_tag(trimmed);
    let i = choose|i: int| 0 <= i < trimmed.len() && trimmed[i] == '-';
    if trimmed[0] == 'v' {
        assert(core[i - 1] == '-');
    }
    assert(core.contains('-'));
    let f = text::lemma_split_keeps(core, '.', '-');
    text::lemma_number_is_digits(text::split_on(core, '.')[f], '-');
}

/// One `v` may stand before a version, no more: what still holds a `v` without it
/// is not a version.
pub proof fn law_a_second_v_is_no_version(tag: Seq<char>)
    requires
        bare_tag(text::trimmed(tag)).contains('v'),
    ensures
        parsed_tag(tag) is None,
{
    let core = bare_tag(text::trimmed(tag));
    let f = text::lemma_split_keeps(core, '.', 'v');
    text::lemma_number_is_digits(text::split_on(core, '.')[f], 'v');
}

/// The address of a release gives its tag, whatever stands before it and with or
/// without a slash at the end.
pub proof fn law_release_address_gives_its_tag(base: Seq<char>, tag: Seq<char>)
    requires
        tag.len() > 0,
        forall|i: int| 0 <= i < tag.len() ==> #[trigger] tag[i] != '/',
    ensures
        release_tag(base + "/tag/"@ + tag) == Some(tag),
        release_tag((base + "/tag/"@ + tag).push('/')) == Some(tag),
{
    let url = base + "/tag/"@ + tag;
    let slash = CharKind::Only('/');
    reveal_strlit("/tag/");
    assert(url.last() == tag.last());
    assert(tag.last() == tag[tag.len() - 1]);
    assert(text::trailing(url, slash) == 0);
    assert(url.take(url.len() as int) =~= url);
    assert(url.push('/').drop_last() =~= url);
    assert(text::trailing(url.push('/'), slash) == 1);
    assert(url.push('/').take(url.len() as int) =~= url);
    let front = base + "/tag"@;
    reveal_strlit("/tag");
    assert(url =~= front.push('/') + tag);
    text::lemma_split_field(front, tag, '/');
    let ending = "/tag/"@ + tag;
    assert(url.subrange(url.len() - ending.len(), url.len() as int) =~= ending);
}

/// A version is never newer than itself, and of two different versions exactly
/// one is newer.
pub proof fn law_versions_are_ordered(a: Version, b: Version, c: Version)
    ensures
        !newer(a, a),
        a != b ==> newer(a, b) != newer(b, a),
        newer(a, b) && newer(b, c) ==> newer(a, c),
{
}

/// The first number in which two versions differ decides which is newer: the major
/// before the minor, the minor before the patch.
pub proof fn law_the_first_difference_decides(a: Version, b: Version)
    ensures
        a.major > b.major ==> newer(a, b) && !newer(b, a),
        a.major == b.major && a.minor > b.minor ==> newer(a, b) && !newer(b, a),
        a.major == b.major && a.minor == b.minor ==> (newer(a, b) <==> a.patch > b.patch),
{
}

/// A version is three numbers with dots between them, after an optional `v` and
/// with white space around it aside; each number is digits, at least one, that spell
/// it.
pub proof fn law_a_version_is_three_numbers(tag: Seq<char>)
    requires
        parsed_tag(tag) is Some,
    ensures
        exists|a: Seq<char>, b: Seq<char>, c: Seq<char>|
            {
                &&& bare_tag(text::trimmed(tag)) == #[trigger] (a + "."@ + b + "."@ + c)
                &&& !a.contains('.') && !b.contains('.') && !c.contains('.')
                &&& text::field_number(a) == Some(parsed_tag(tag)->0.major as nat)
                &&& text::field_number(b) == Some(parsed_tag(tag)->0.minor as nat)
                &&& text::field_number(c) == Some(parsed_tag(tag)->0.patch as nat)
            },
{
    let core = bare_tag(text::trimmed(tag));
    let fields = text::split_on(core, '.');
    text::law_splitting_is_undone_by_joining(core, '.');
    reveal_strlit(".");
    let two = fields.drop_last();
    let one = two.drop_last();
    assert(one.len() == 1 && one[0] == fields[0]);
    assert(text::rejoined(one, '.') == fields[0]);
    assert(text::rejoined(two, '.') == fields[0].push('.') + fields[1]);
    assert(text::rejoined(fields, '.') == (fields[0].push('.') + fields[1]).push('.') + fields[2]);
    assert(core =~= fields[0] + "."@ + fields[1] + "."@ + fields[2]);
}

/// Three numbers with dots between them are a version, with a `v` before them or
/// without, and with white space around them or without.
pub proof fn law_three_numbers_are_a_version(
    before: Seq<char>,
    v: Version,
    with_v: bool,
    after: Seq<char>,
)
    requires
        forall|k: int| 0 <= k < before.len() ==> text::is_white(#[trigger] before[k]),
        forall|k: int| 0 <= k < after.len() ==> text::is_white(#[trigger] after[k]),
    ensures
        ({
            let numbers = text::decimal(v.major as nat) + "."@ + text::decimal(v.minor as nat)
                + "."@ + text::decimal(v.patch as nat);
            parsed_tag(
                before + (if with_v {
                    "v"@ + numbers
                } else {
                    numbers
                }) + after,
            ) == Some(v)
        }),
{
    let major = text::decimal(v.major as nat);
    let minor = text::decimal(v.minor as nat);
    let patch = text::decimal(v.patch as nat);
    let numbers = major + "."@ + minor + "."@ + patch;
    let core = if with_v {
        "v"@ + numbers
    } else {
        numbers
    };
    text::law_decimal_round_trips(v.major as nat);
    text::law_decimal_round_trips(v.minor as nat);
    text::law_decimal_round_trips(v.patch as nat);
    reveal_strlit("v");
    reveal_strlit(".");
    assert(numbers[0] == major[0]);
    assert(patch.last() == patch[patch.len() - 1]);
    assert(numbers.last() == patch.last());
    assert(core.last() == patch.last());
    text::law_trimming(before, core, after);
    assert("v"@ + numbers =~= seq!['v'] + numbers);
    assert((seq!['v'] + numbers).skip(1) =~= numbers);
    assert(bare_tag(core) == numbers);
    let front = major.push('.') + minor;
    assert(numbers =~= front.push('.') + patch);
    text::lemma_split_field(front, patch, '.');
    text::lemma_split_field(major, minor, '.');
    text::lemma_split_field(Seq::empty(), major, '.');
    let fields = text::split_on(numbers, '.');
    assert(fields =~= seq![major, minor, patch]);
    assert(major[0] != '+' && minor[0] != '+' && patch[0] != '+');
}

/// A tag is read only out of an address that ends in `/tag/` and the tag: what is
/// read has no slash in it, and nothing but slashes stands behind it.
pub proof fn law_a_tag_is_read_from_a_tag_address(url: Seq<char>)
    requires
        release_tag(url) is Some,
    ensures
        release_tag(url)->0.len() > 0,
        !release_tag(url)->0.contains('/'),
        exists|base: Seq<char>|
            text::trimmed_back(url, CharKind::Only('/')) == #[trigger] (base + ("/tag/"@
                + release_tag(url)->0)),
{
    let core = text::trimmed_back(url, CharKind::Only('/'));
    let fields = text::split_on(core, '/');
    text::law_splitting_is_undone_by_joining(core, '/');
    assert(!fields[fields.len() - 1].contains('/'));
    text::law_a_suffix_stands_at_the_end(core, "/tag/"@ + release_tag(url)->0);
}

/// Where the link led to the address of a release, the latest version is the one
/// that its tag names; and where nothing was resolved, none is known.
pub proof fn law_the_latest_version_is_the_one_resolved(
    fetched: Fetched,
    base: Seq<char>,
    v: Version,
)
    ensures
        fetched is Resolved && text::trimmed(text::lossy_utf8(fetched->output@)) == base + "/tag/"@
            + version_tag(v) ==> latest_of(fetched) == Ok::<Version, Seq<char>>(v),
        fetched is NotRun || fetched is Refused ==> latest_of(fetched) is Err,
        fetched is Resolved && release_tag(text::trimmed(text::lossy_utf8(fetched->output@)))
            is None ==> latest_of(fetched) is Err,
{
    let tag = version_tag(v);
    text::law_decimal_round_trips(v.major as nat);
    text::law_decimal_round_trips(v.minor as nat);
    text::law_decimal_round_trips(v.patch as nat);
    reveal_strlit("v");
    reveal_strlit(".");
    let major = text::decimal(v.major as nat);
    let minor = text::decimal(v.minor as nat);
    let patch = text::decimal(v.patch as nat);
    assert forall|i: int| 0 <= i < tag.len() implies #[trigger] tag[i] != '/' by {
        let a = 1 + major.len();
        let b = a + 1 + minor.len();
        if 1 <= i < a {
            assert(tag[i] == major[i - 1]);
        } else if a < i < b {
            assert(tag[i] == minor[i - a - 1]);
        } else if i > b {
            assert(tag[i] == patch[i - b - 1]);
        }
    }
    law_release_address_gives_its_tag(base, tag);
    law_tag_round_trips(v);
}

/// What the user is told: the version at hand where it is the latest, the newer one
/// and how to get it where there is one, and why where it is not known.
pub proof fn law_the_user_is_told_the_outcome(check: UpdateCheck, v: Version)
    ensures
        version_tag(v) == "v"@ + text::decimal(v.major as nat) + "."@ + text::decimal(
            v.minor as nat,
        ) + "."@ + text::decimal(v.patch as nat),
        match check {
            UpdateCheck::UpToDate { current } => check_text(check) == "macclean "@ + version_tag(
                current,
            ) + " is up to date."@,
            UpdateCheck::Newer { current, latest } => check_text(check) == "A newer version "@
                + version_tag(latest) + " is available — reinstall:\n  "@ + INSTALL_ONE_LINER@,
            UpdateCheck::Failed { reason } => check_text(check) == "Couldn't check for updates ("@
                + reason@ + ")."@,
        },
{
}

/// Why the latest version is not known: the request could not be made, it failed, it
/// led to no release, or the release has no version for a tag.
pub proof fn law_a_failed_check_says_why(fetched: Fetched)
    ensures
        match fetched {
            Fetched::NotRun { error } => latest_of(fetched) == Err::<Version, Seq<char>>(
                "could not run curl: "@ + error@,
            ),
            Fetched::Refused => latest_of(fetched) == Err::<Version, Seq<char>>(
                "network request failed"@,
            ),
            Fetched::Resolved { output } => {
                let address = text::trimmed(text::lossy_utf8(output@));
                &&& release_tag(address) is None ==> latest_of(fetched) == Err::<Version, Seq<char>>(
                    "could not read the release tag"@,
                )
                &&& release_tag(address) is Some && parsed_tag(release_tag(address)->0) is None
                    ==> latest_of(fetched) == Err::<Version, Seq<char>>(
                    "unrecognized release tag: "@ + release_tag(address)->0,
                )
            },
        },
{
}

} // verus!
