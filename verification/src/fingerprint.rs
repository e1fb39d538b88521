//! Content fingerprints: the same for byte-identical Items regardless of their
//! own name or where they sit.

use crate::order;
use crate::order::Ranking;
use crate::path;
use crate::path::DiskPath;
use crate::text;
use vstd::prelude::*;
use vstd::relations::*;
use vstd::utf8::*;

verus! {

broadcast use vstd::string::group_string_axioms;

/// The state of an incremental BLAKE3 hash.
#[verifier::external_type_specification]
#[verifier::external_body]
pub struct ExHasher(blake3::Hasher);

/// The bytes that a hasher has been given so far, in order.
pub uninterp spec fn taken_in(hasher: blake3::Hasher) -> Seq<u8>;

/// Whether a hasher computes the plain hash of its input: it has no key, and its
/// input starts at the first byte.
pub uninterp spec fn is_plain(hasher: blake3::Hasher) -> bool;

/// The BLAKE3 hash of `bytes`.
pub uninterp spec fn blake3_hash(bytes: Seq<u8>) -> Seq<u8>;

/// Calls `blake3::Hasher::new`, which makes a hasher of the plain hash function
/// that has been given nothing.
#[verifier::external_body]
fn empty_hasher() -> (r: blake3::Hasher)
    ensures
        is_plain(r),
        taken_in(r) == Seq::<u8>::empty(),
{
    blake3::Hasher::new()
}

/// Calls `blake3::Hasher::update`, which adds the bytes behind those given before
/// and keeps the kind of hash. The hash function counts its input in 64 bits.
#[verifier::external_body]
fn feed_hasher(hasher: &mut blake3::Hasher, bytes: &[u8])
    requires
        is_plain(*old(hasher)),
        taken_in(*old(hasher)).len() + bytes@.len() <= u64::MAX,
    ensures
        is_plain(*final(hasher)),
        taken_in(*final(hasher)) == taken_in(*old(hasher)) + bytes@,
{
    hasher.update(bytes);
}

/// Calls `blake3::Hasher::finalize`, whose result for a plain hasher depends on the
/// bytes given alone, not on how they were split.
#[verifier::external_body]
fn hasher_result(hasher: &blake3::Hasher) -> (r: [u8; 32])
    requires
        is_plain(*hasher),
    ensures
        r@ == blake3_hash(taken_in(*hasher)),
{
    *hasher.finalize().as_bytes()
}

/// The hash of a file in the making, its bytes taken in piece by piece so that
/// they are never held all at once.
pub struct FileDigest {
    hasher: blake3::Hasher,
    count: u64,
}

/// The bytes of the file taken in so far.
pub closed spec fn absorbed(digest: FileDigest) -> Seq<u8> {
    taken_in(digest.hasher)
}

impl FileDigest {
    /// Whether this is the plain hash of the bytes taken in, and counts them.
    pub closed spec fn valid(self) -> bool {
        is_plain(self.hasher) && self.count == taken_in(self.hasher).len()
    }

    /// The digest of a file of which nothing was read yet.
    pub fn new() -> (r: FileDigest)
        ensures
            r.valid(),
            absorbed(r) == Seq::<u8>::empty(),
    {
        FileDigest { hasher: empty_hasher(), count: 0 }
    }

    /// Takes in the next bytes of the file. Refuses them, and changes nothing,
    /// where the file would be longer than 64 bits can count.
    pub fn absorb(&mut self, bytes: &[u8]) -> (r: bool)
        requires
            old(self).valid(),
        ensures
            final(self).valid(),
            r == (absorbed(*old(self)).len() + bytes@.len() <= u64::MAX),
            absorbed(*final(self)) == (if r {
                absorbed(*old(self)) + bytes@
            } else {
                absorbed(*old(self))
            }),
    {
        if bytes.len() as u64 > u64::MAX - self.count {
            return false;
        }
        self.count = self.count + bytes.len() as u64;
        feed_hasher(&mut self.hasher, bytes);
        true
    }

    /// The hash of all bytes taken in.
    pub fn finish(&self) -> (r: [u8; 32])
        requires
            self.valid(),
        ensures
            r@ == blake3_hash(absorbed(*self)),
    {
        hasher_result(&self.hasher)
    }
}

/// What an entry of a listed tree is.
#[derive(Debug, Clone, Copy)]
pub enum ListedKind {
    Dir,
    /// A regular file, with the hash of its bytes if they could be read.
    File { digest: Option<[u8; 32]> },
    /// A symlink or other special file.
    Other,
}

/// One entry of a tree: where it lies below the root of the tree, and what it is.
/// The root itself is listed with an empty path.
#[derive(Debug)]
pub struct ListedEntry {
    pub rel: DiskPath,
    pub kind: ListedKind,
}

/// What a [`ListedEntry`] says.
pub enum ListedView {
    Dir { rel: Seq<u8> },
    File { rel: Seq<u8>, digest: Seq<u8> },
    Unreadable,
    Other,
}

impl View for ListedEntry {
    type V = ListedView;

    open spec fn view(&self) -> ListedView {
        match self.kind {
            ListedKind::Dir => ListedView::Dir { rel: self.rel@ },
            ListedKind::File { digest: Some(digest) } => ListedView::File {
                rel: self.rel@,
                digest: digest@,
            },
            ListedKind::File { digest: None } => ListedView::Unreadable,
            ListedKind::Other => ListedView::Other,
        }
    }
}

/// What the entries of a listing say.
pub open spec fn listed_views(listing: Seq<ListedEntry>) -> Seq<ListedView> {
    Seq::new(listing.len(), |i: int| listing[i]@)
}

/// The character of a hexadecimal digit.
pub open spec fn hex_char(d: nat) -> char {
    if d < 10 {
        text::digit_char(d)
    } else if d == 10 {
        'a'
    } else if d == 11 {
        'b'
    } else if d == 12 {
        'c'
    } else if d == 13 {
        'd'
    } else if d == 14 {
        'e'
    } else {
        'f'
    }
}

/// Bytes in hexadecimal, two digits each.
pub open spec fn hex(bytes: Seq<u8>) -> Seq<char> {
    Seq::new(
        2 * bytes.len(),
        |i: int|
            if i % 2 == 0 {
                hex_char((bytes[i / 2] / 16) as nat)
            } else {
                hex_char((bytes[i / 2] % 16) as nat)
            },
    )
}

/// The line of an entry in the listing; none for what is not compared.
pub open spec fn line_of(entry: ListedView) -> Option<Seq<char>> {
    match entry {
        ListedView::Dir { rel } => Some("D:"@ + text::lossy_utf8(rel)),
        ListedView::File { rel, digest } => Some(
            "F:"@ + text::lossy_utf8(rel) + ":"@ + hex(digest),
        ),
        ListedView::Unreadable => None,
        ListedView::Other => None,
    }
}

/// The lines of all entries, as bytes.
pub open spec fn lines_of(listing: Seq<ListedView>) -> Seq<Seq<u8>>
    decreases listing.len(),
{
    if listing.len() == 0 {
        Seq::empty()
    } else {
        let before = lines_of(listing.drop_last());
        match line_of(listing.last()) {
            Some(line) => before.push(encode_utf8(line)),
            None => before,
        }
    }
}

/// Lines one after the other, a line feed after each.
pub open spec fn joined_lines(lines: Seq<Seq<u8>>) -> Seq<u8>
    decreases lines.len(),
{
    if lines.len() == 0 {
        Seq::empty()
    } else {
        joined_lines(lines.drop_last()) + lines.last() + seq![10u8]
    }
}

/// The bytes that stand for a tree: its lines in lexicographic order.
pub open spec fn tree_bytes(listing: Seq<ListedView>) -> Seq<u8> {
    joined_lines(lines_of(listing).sort_by(|a: Seq<u8>, b: Seq<u8>| path::bytes_le(a, b)))
}

/// Whether the bytes of some file could not be read.
pub open spec fn has_unreadable(listing: Seq<ListedView>) -> bool {
    exists|i: int| 0 <= i < listing.len() && #[trigger] listing[i] is Unreadable
}

fn hex_digit(d: u8) -> (c: char)
    requires
        d < 16,
    ensures
        c == hex_char(d as nat),
{
    if d < 10 {
        text::digit(d as u64)
    } else if d == 10 {
        'a'
    } else if d == 11 {
        'b'
    } else if d == 12 {
        'c'
    } else if d == 13 {
        'd'
    } else if d == 14 {
        'e'
    } else {
        'f'
    }
}

/// Writes a hash in hexadecimal.
pub fn hex_text(digest: &[u8; 32]) -> (r: String)
    ensures
        r@ == hex(digest@),
{
    let mut out: String = String::new();
    let mut i: usize = 0;
    while i < 32
        invariant
            i <= 32,
            out@ == hex(digest@.take(i as int)),
        decreases 32 - i,
    {
        let b: u8 = digest[i];
        out.push(hex_digit(b / 16));
        out.push(hex_digit(b % 16));
        assert(out@ =~= hex(digest@.take(i + 1)));
        i = i + 1;
    }
    assert(digest@.take(32) =~= digest@);
    out
}

fn entry_line(entry: &ListedEntry) -> (r: Option<Vec<u8>>)
    ensures
        match r {
            Some(line) => line_of(entry@) is Some && line@ == encode_utf8(line_of(entry@)->0),
            None => line_of(entry@) is None,
        },
{
    let line: String = match &entry.kind {
        ListedKind::Dir => "D:".to_owned().concat(entry.rel.display().as_str()),
        ListedKind::File { digest } => match digest {
            Some(digest) => "F:".to_owned().concat(entry.rel.display().as_str()).concat(
                ":",
            ).concat(hex_text(digest).as_str()),
            None => {
                return None;
            },
        },
        ListedKind::Other => {
            return None;
        },
    };
    Some(vstd::slice::slice_to_vec(line.as_str().as_bytes()))
}

struct Lines<'a> {
    lines: &'a Vec<Vec<u8>>,
}

spec fn line_views(lines: Seq<Vec<u8>>) -> Seq<Seq<u8>> {
    Seq::new(lines.len(), |i: int| lines[i]@)
}

impl<'a> Ranking for Lines<'a> {
    closed spec fn count(&self) -> nat {
        self.lines@.len()
    }

    closed spec fn le(&self, i: int, j: int) -> bool {
        path::bytes_le(line_views(self.lines@)[i], line_views(self.lines@)[j])
    }

    proof fn le_total(&self, i: int, j: int) {
        path::bytes_le_total(line_views(self.lines@)[i], line_views(self.lines@)[j]);
    }

    proof fn le_transitive(&self, i: int, j: int, k: int) {
        path::bytes_le_transitive(
            line_views(self.lines@)[i],
            line_views(self.lines@)[j],
            line_views(self.lines@)[k],
        );
    }

    fn at_most(&self, i: usize, j: usize) -> (r: bool) {
        path::at_or_before(&self.lines[i], &self.lines[j])
    }
}

proof fn lemma_bytes_totally_ordered()
    ensures
        total_ordering(|a: Seq<u8>, b: Seq<u8>| path::bytes_le(a, b)),
{
    let le = |a: Seq<u8>, b: Seq<u8>| path::bytes_le(a, b);
    assert forall|a: Seq<u8>| #[trigger] le(a, a) by {
        path::bytes_le_total(a, a);
    }
    assert forall|a: Seq<u8>, b: Seq<u8>| #[trigger] le(a, b) && #[trigger] le(b, a) implies a
        == b by {
        path::bytes_le_antisymmetric(a, b);
    }
    assert forall|a: Seq<u8>, b: Seq<u8>, c: Seq<u8>| #[trigger]
        le(a, b) && #[trigger] le(b, c) implies le(a, c) by {
        path::bytes_le_transitive(a, b, c);
    }
    assert forall|a: Seq<u8>, b: Seq<u8>| #[trigger] le(a, b) || #[trigger] le(b, a) by {
        path::bytes_le_total(a, b);
    }
}

/// The bytes that stand for a tree, unless a file of it could not be read. The
/// order of the listing and the name of the tree do not matter.
pub fn listing_bytes(listing: &Vec<ListedEntry>) -> (r: Option<Vec<u8>>)
    ensures
        match r {
            Some(bytes) => !has_unreadable(listed_views(listing@)) && bytes@ == tree_bytes(
                listed_views(listing@),
            ),
            None => has_unreadable(listed_views(listing@)),
        },
{
    let ghost views = listed_views(listing@);
    let mut lines: Vec<Vec<u8>> = Vec::new();
    let mut i: usize = 0;
    while i < listing.len()
        invariant
            i <= listing@.len(),
            views == listed_views(listing@),
            forall|k: int| 0 <= k < i ==> !(#[trigger] views[k] is Unreadable),
            line_views(lines@) == lines_of(views.take(i as int)),
        decreases listing@.len() - i,
    {
        let ghost before = lines@;
        assert(views[i as int] == listing@[i as int]@);
        assert(views.take(i + 1).drop_last() =~= views.take(i as int));
        assert(views.take(i + 1).last() == views[i as int]);
        if let ListedKind::File { digest: None } = listing[i].kind {
            return None;
        }
        if let Some(line) = entry_line(&listing[i]) {
            lines.push(line);
            assert(line_views(lines@) =~= line_views(before).push(line@));
        }
        i = i + 1;
    }
    assert(views.take(views.len() as int) =~= views);
    let ranking: Lines = Lines { lines: &lines };
    let places: Vec<usize> = order::stable_order(&ranking, lines.len());
    let ghost unsorted = line_views(lines@);
    let ghost sorted = order::gathered(unsorted, places@);
    let ghost le = |a: Seq<u8>, b: Seq<u8>| path::bytes_le(a, b);
    proof {
        order::law_sorting_keeps_everything(
            unsorted,
            |i: int, j: int| ranking.le(i, j),
            places@,
        );
        lemma_bytes_totally_ordered();
        unsorted.lemma_sort_by_ensures(le);
        assert(sorted_by(sorted, le)) by {
            assert forall|a: int, b: int| 0 <= a < b < sorted.len() implies #[trigger] le(
                sorted[a],
                sorted[b],
            ) by {
                assert(order::stands_before(
                    |i: int, j: int| ranking.le(i, j),
                    places@[a] as int,
                    places@[b] as int,
                ));
            }
        }
        vstd::seq_lib::lemma_sorted_unique(sorted, unsorted.sort_by(le), le);
    }
    let mut bytes: Vec<u8> = Vec::new();
    let mut k: usize = 0;
    while k < places.len()
        invariant
            k <= places@.len(),
            unsorted == line_views(lines@),
            sorted == order::gathered(unsorted, places@),
            places@.len() == lines@.len(),
            forall|a: int| 0 <= a < places@.len() ==> (#[trigger] places@[a]) < lines@.len(),
            bytes@ == joined_lines(sorted.take(k as int)),
        decreases places@.len() - k,
    {
        let mut line: Vec<u8> = path::copy_bytes(&lines[places[k]]);
        bytes.append(&mut line);
        bytes.push(10);
        proof {
            assert(sorted.take(k + 1).drop_last() =~= sorted.take(k as int));
            assert(sorted.take(k + 1).last() == lines@[places@[k as int] as int]@);
            assert(bytes@ =~= joined_lines(sorted.take(k + 1)));
        }
        k = k + 1;
    }
    assert(sorted.take(sorted.len() as int) =~= sorted);
    Some(bytes)
}

/// Whether a listing is that of a single file: the root, and nothing else.
pub open spec fn is_single_file(listing: Seq<ListedView>) -> bool {
    listing.len() == 1 && (listing[0] matches ListedView::File { rel, .. } && rel.len() == 0)
}

/// The content fingerprint of what was listed. For a file it is the hash of its
/// bytes; for a directory it is the hash of its sorted `(relative path, file hash)`
/// listing. What holds a file that could not be read has none.
pub open spec fn fingerprint_of(listing: Seq<ListedView>) -> Option<Seq<u8>> {
    if has_unreadable(listing) {
        None
    } else if is_single_file(listing) {
        Some(listing[0]->digest)
    } else {
        Some(blake3_hash(tree_bytes(listing)))
    }
}

/// A content hash that is identical for byte-identical Items regardless of their
/// own name or where they sit. For a file it is the hash of its bytes; for a
/// directory it is the hash of its sorted `(relative path, file hash)` listing, so
/// structure and contents both count but the tree's own name does not. A tree that
/// holds a file which could not be read has none.
pub fn content_fingerprint(listing: &Vec<ListedEntry>) -> (r: Option<[u8; 32]>)
    ensures
        match r {
            Some(print) => fingerprint_of(listed_views(listing@)) == Some(print@),
            None => fingerprint_of(listed_views(listing@)) is None,
        },
{
    let ghost views = listed_views(listing@);
    if listing.len() == 1 {
        assert(views[0] == listing@[0]@);
        if let ListedKind::File { digest: Some(digest) } = listing[0].kind {
            if listing[0].rel.bytes.len() == 0 {
                return Some(digest);
            }
        }
    }
    match listing_bytes(listing) {
        Some(bytes) => {
            let mut digest: FileDigest = FileDigest::new();
            digest.absorb(bytes.as_slice());
            assert(bytes.len() <= u64::MAX);
            assert(absorbed(digest) =~= bytes@);
            Some(digest.finish())
        },
        None => None,
    }
}

/// The order in which a tree is listed does not matter.
pub proof fn law_listing_order_does_not_matter(a: Seq<ListedView>, b: Seq<ListedView>)
    requires
        a.to_multiset() == b.to_multiset(),
    ensures
        tree_bytes(a) == tree_bytes(b),
        fingerprint_of(a) == fingerprint_of(b),
{
    let le = |x: Seq<u8>, y: Seq<u8>| path::bytes_le(x, y);
    lemma_lines_multiset(a, b);
    lemma_bytes_totally_ordered();
    lines_of(a).lemma_sort_by_ensures(le);
    lines_of(b).lemma_sort_by_ensures(le);
    vstd::seq_lib::lemma_sorted_unique(lines_of(a).sort_by(le), lines_of(b).sort_by(le), le);
    lemma_same_members(a, b);
    lemma_same_members(b, a);
    if a.len() == 1 {
        assert(a.contains(a[0]) && b.contains(a[0]));
    }
}

proof fn lemma_same_members(a: Seq<ListedView>, b: Seq<ListedView>)
    requires
        a.to_multiset() == b.to_multiset(),
    ensures
        a.len() == b.len(),
        has_unreadable(a) ==> has_unreadable(b),
        forall|x: ListedView| a.contains(x) ==> #[trigger] b.contains(x),
{
    broadcast use vstd::seq_lib::group_to_multiset_ensures;

    assert(a.len() == a.to_multiset().len() && b.len() == b.to_multiset().len());
    assert forall|x: ListedView| a.contains(x) implies #[trigger] b.contains(x) by {
        assert(a.to_multiset().count(x) > 0);
    }
    if has_unreadable(a) {
        let i = choose|i: int| 0 <= i < a.len() && #[trigger] a[i] is Unreadable;
        assert(b.contains(a[i]));
    }
}

/// The fingerprint of a file is the hash of its bytes: neither its name nor where
/// it sits goes into it.
pub proof fn law_a_file_is_its_bytes(bytes: Seq<u8>)
    ensures
        fingerprint_of(
            seq![ListedView::File { rel: Seq::empty(), digest: blake3_hash(bytes) }],
        ) == Some(blake3_hash(bytes)),
{
    let listing = seq![ListedView::File { rel: Seq::empty(), digest: blake3_hash(bytes) }];
    assert(!(listing[0] is Unreadable));
}

proof fn lemma_lines_remove(s: Seq<ListedView>, i: int)
    requires
        0 <= i < s.len(),
    ensures
        match line_of(s[i]) {
            Some(line) => lines_of(s).to_multiset() == lines_of(s.remove(i)).to_multiset().insert(
                encode_utf8(line),
            ),
            None => lines_of(s).to_multiset() == lines_of(s.remove(i)).to_multiset(),
        },
    decreases s.len(),
{
    broadcast use vstd::seq_lib::group_to_multiset_ensures;

    if i == s.len() - 1 {
        assert(s.remove(i) =~= s.drop_last());
    } else {
        lemma_lines_remove(s.drop_last(), i);
        assert(s.remove(i).drop_last() =~= s.drop_last().remove(i));
        assert(s.remove(i).last() == s.last());
        let front = lines_of(s.drop_last()).to_multiset();
        let fewer = lines_of(s.drop_last().remove(i)).to_multiset();
        if line_of(s.last()) is Some && line_of(s[i]) is Some {
            let x = encode_utf8(line_of(s.last())->0);
            let y = encode_utf8(line_of(s[i])->0);
            assert(fewer.insert(y).insert(x) =~= fewer.insert(x).insert(y));
        }
    }
}

proof fn lemma_lines_multiset(a: Seq<ListedView>, b: Seq<ListedView>)
    requires
        a.to_multiset() == b.to_multiset(),
    ensures
        lines_of(a).to_multiset() == lines_of(b).to_multiset(),
    decreases a.len(),
{
    broadcast use vstd::seq_lib::group_to_multiset_ensures;

    if a.len() == 0 {
        assert(b.len() == b.to_multiset().len());
        assert(b =~= a);
    } else {
        let x = a.last();
        assert(a.to_multiset().count(x) > 0);
        assert(b.contains(x));
        let j = choose|j: int| 0 <= j < b.len() && b[j] == x;
        let shorter = a.remove(a.len() - 1);
        assert(shorter =~= a.drop_last());
        assert(shorter.to_multiset() == b.remove(j).to_multiset());
        lemma_lines_multiset(shorter, b.remove(j));
        lemma_lines_remove(b, j);
    }
}

/// Hexadecimal tells bytes apart: two digits for each byte, the high one first.
pub proof fn law_hexadecimal_tells_bytes_apart(a: Seq<u8>, b: Seq<u8>)
    requires
        hex(a) == hex(b),
    ensures
        a == b,
{
    assert(hex(a).len() == 2 * a.len() && hex(b).len() == 2 * b.len());
    assert forall|i: int| 0 <= i < a.len() implies a[i] == b[i] by {
        assert(hex(a)[2 * i] == hex(b)[2 * i]);
        assert(hex(a)[2 * i + 1] == hex(b)[2 * i + 1]);
        assert((2 * i) / 2 == i && (2 * i) % 2 == 0);
        assert((2 * i + 1) / 2 == i && (2 * i + 1) % 2 == 1);
        law_hexadecimal_digits((a[i] / 16) as nat, (b[i] / 16) as nat);
        law_hexadecimal_digits((a[i] % 16) as nat, (b[i] % 16) as nat);
        assert(hex(a)[2 * i] == hex_char((a[i] / 16) as nat));
        assert(hex(a)[2 * i + 1] == hex_char((a[i] % 16) as nat));
        assert(hex(b)[2 * i] == hex_char((b[i] / 16) as nat));
        assert(hex(b)[2 * i + 1] == hex_char((b[i] % 16) as nat));
    }
    assert(a =~= b);
}

/// The sixteen digits are `0` to `9` and `a` to `f`, in this order.
pub proof fn law_hexadecimal_digits(d: nat, e: nat)
    requires
        d < 16,
        e < 16,
    ensures
        d < 10 ==> hex_char(d) as int == 48 + d,
        d >= 10 ==> hex_char(d) as int == 97 + (d - 10),
        hex_char(d) == hex_char(e) ==> d == e,
{
}

/// Every file and every directory has its line in the listing, a directory under
/// its path and a file under its path and the hash of its bytes; a file with other
/// bytes has another line. Symlinks and other special files have none.
pub proof fn law_every_file_counts(
    listing: Seq<ListedView>,
    rel: Seq<u8>,
    digest: Seq<u8>,
    other: Seq<u8>,
)
    ensures
        lines_of(Seq::empty()).len() == 0,
        lines_of(listing.push(ListedView::Dir { rel })) == lines_of(listing).push(
            encode_utf8("D:"@ + text::lossy_utf8(rel)),
        ),
        lines_of(listing.push(ListedView::File { rel, digest })) == lines_of(listing).push(
            encode_utf8("F:"@ + text::lossy_utf8(rel) + ":"@ + hex(digest)),
        ),
        lines_of(listing.push(ListedView::Other)) == lines_of(listing),
        digest != other && digest.len() == other.len() ==> line_of(
            ListedView::File { rel, digest },
        ) != line_of(ListedView::File { rel, digest: other }),
{
    assert(listing.push(ListedView::Dir { rel }).drop_last() =~= listing);
    assert(listing.push(ListedView::File { rel, digest }).drop_last() =~= listing);
    assert(listing.push(ListedView::Other).drop_last() =~= listing);
    let head = "F:"@ + text::lossy_utf8(rel) + ":"@;
    if head + hex(digest) == head + hex(other) {
        let n = head.len() as int;
        assert((head + hex(digest)).skip(n) =~= hex(digest));
        assert((head + hex(other)).skip(n) =~= hex(other));
        law_hexadecimal_tells_bytes_apart(digest, other);
    }
}

/// What is hashed of a directory are its lines in order, a line feed behind each.
pub proof fn law_lines_end_in_line_feeds(lines: Seq<Seq<u8>>, line: Seq<u8>)
    ensures
        joined_lines(Seq::empty()) == Seq::<u8>::empty(),
        joined_lines(lines.push(line)) == joined_lines(lines) + line + seq![10u8],
{
    assert(lines.push(line).drop_last() =~= lines);
}

/// A fingerprint is given exactly if every file could be read, and it is that of the
/// listed lines unless the listing is that of a single file.
pub proof fn law_an_unread_file_leaves_no_fingerprint(listing: Seq<ListedView>, i: int)
    requires
        0 <= i < listing.len(),
        listing[i] is Unreadable,
    ensures
        fingerprint_of(listing) is None,
{
}

/// The bytes that stand for a directory hold its lines and nothing else, in
/// lexicographic order.
pub proof fn law_a_listing_is_sorted(listing: Seq<ListedView>)
    ensures
        exists|sorted: Seq<Seq<u8>>|
            tree_bytes(listing) == #[trigger] joined_lines(sorted) && sorted.to_multiset()
                == lines_of(listing).to_multiset() && forall|a: int, b: int|
                0 <= a < b < sorted.len() ==> path::bytes_le(
                    #[trigger] sorted[a],
                    #[trigger] sorted[b],
                ),
{
    let le = |a: Seq<u8>, b: Seq<u8>| path::bytes_le(a, b);
    lemma_bytes_totally_ordered();
    lines_of(listing).lemma_sort_by_ensures(le);
    let sorted = lines_of(listing).sort_by(le);
    assert(tree_bytes(listing) == joined_lines(sorted));
    assert forall|a: int, b: int| 0 <= a < b < sorted.len() implies path::bytes_le(
        #[trigger] sorted[a],
        #[trigger] sorted[b],
    ) by {
        assert(le(sorted[a], sorted[b]));
    }
}

/// The fingerprint of a directory, or of anything but a single file, is the hash of
/// its sorted lines; an entry is listed as it was found.
pub proof fn law_a_directory_is_its_lines(listing: Seq<ListedView>)
    requires
        forall|i: int| 0 <= i < listing.len() ==> !(#[trigger] listing[i] is Unreadable),
        listing.len() != 1 || listing[0] is Dir || listing[0] is Other || (listing[0] is File
            && listing[0]->File_rel.len() > 0),
    ensures
        fingerprint_of(listing) == Some(blake3_hash(tree_bytes(listing))),
{
}

/// Entries are taken as they were listed.
pub proof fn law_entries_are_taken_as_listed(listing: Seq<ListedEntry>, i: int)
    requires
        0 <= i < listing.len(),
    ensures
        listed_views(listing).len() == listing.len(),
        match listing[i].kind {
            ListedKind::Dir => listed_views(listing)[i] == (ListedView::Dir {
                rel: listing[i].rel@,
            }),
            ListedKind::File { digest: Some(digest) } => listed_views(listing)[i] == (
            ListedView::File { rel: listing[i].rel@, digest: digest@ }),
            ListedKind::File { digest: None } => listed_views(listing)[i] is Unreadable,
            ListedKind::Other => listed_views(listing)[i] is Other,
        },
{
}

} // verus!
