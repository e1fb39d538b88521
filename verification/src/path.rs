//! Paths of files and directories, as the bytes that the system knows them by.

use crate::text;
use vstd::prelude::*;
use vstd::utf8::*;

verus! {

broadcast use vstd::string::group_string_axioms;

/// A path: any bytes, components separated by `/`.
#[derive(Debug, PartialEq, Eq, Hash, Default)]
pub struct DiskPath {
    pub bytes: Vec<u8>,
}

impl View for DiskPath {
    type V = Seq<u8>;

    open spec fn view(&self) -> Seq<u8> {
        self.bytes@
    }
}

/// The components of a path that name something: those that are neither empty
/// nor `.`.
pub open spec fn named_parts(path: Seq<u8>) -> Seq<Seq<u8>> {
    text::split_on(path, 47u8).filter(|part: Seq<u8>| part.len() != 0 && part != seq![46u8])
}

/// The last component of a path, unless the path ends in `..` or has none.
pub open spec fn file_name(path: Seq<u8>) -> Option<Seq<u8>> {
    let parts = named_parts(path);
    if parts.len() == 0 || parts.last() == seq![46u8, 46u8] {
        None
    } else {
        Some(parts.last())
    }
}

/// The name of a path as text: empty where the path has no name, or a name that
/// is not UTF-8.
pub open spec fn name_text(path: Seq<u8>) -> Seq<char> {
    match file_name(path) {
        Some(name) => if valid_utf8(name) {
            decode_utf8(name)
        } else {
            Seq::empty()
        },
        None => Seq::empty(),
    }
}

/// The path `rel` taken from the directory `base`: below it, with one slash in
/// between, unless `rel` starts at the root.
pub open spec fn joined(base: Seq<u8>, rel: Seq<u8>) -> Seq<u8> {
    if rel.len() > 0 && rel[0] == 47u8 {
        rel
    } else if base.len() == 0 || base.last() == 47u8 {
        base + rel
    } else {
        base.push(47u8) + rel
    }
}

/// Lexicographic order of byte strings.
pub open spec fn bytes_le(a: Seq<u8>, b: Seq<u8>) -> bool
    decreases a.len(),
{
    if a.len() == 0 {
        true
    } else if b.len() == 0 {
        false
    } else if a[0] != b[0] {
        a[0] < b[0]
    } else {
        bytes_le(a.drop_first(), b.drop_first())
    }
}

/// Two byte strings are always comparable.
pub proof fn bytes_le_total(a: Seq<u8>, b: Seq<u8>)
    ensures
        bytes_le(a, b) || bytes_le(b, a),
    decreases a.len(),
{
    if a.len() > 0 && b.len() > 0 && a[0] == b[0] {
        bytes_le_total(a.drop_first(), b.drop_first());
    }
}

/// The order of byte strings is transitive.
pub proof fn bytes_le_transitive(a: Seq<u8>, b: Seq<u8>, c: Seq<u8>)
    requires
        bytes_le(a, b),
        bytes_le(b, c),
    ensures
        bytes_le(a, c),
    decreases a.len(),
{
    if a.len() > 0 && b.len() > 0 && c.len() > 0 && a[0] == b[0] && b[0] == c[0] {
        bytes_le_transitive(a.drop_first(), b.drop_first(), c.drop_first());
    }
}

/// Byte strings that are below each other are equal.
pub proof fn bytes_le_antisymmetric(a: Seq<u8>, b: Seq<u8>)
    requires
        bytes_le(a, b),
        bytes_le(b, a),
    ensures
        a == b,
    decreases a.len(),
{
    if a.len() > 0 && b.len() > 0 {
        bytes_le_antisymmetric(a.drop_first(), b.drop_first());
        assert(a == seq![a[0]] + a.drop_first());
        assert(b == seq![b[0]] + b.drop_first());
    } else {
        assert(a == b);
    }
}

/// Whether `a` is at or before `b` in the lexicographic order.
pub fn at_or_before(a: &Vec<u8>, b: &Vec<u8>) -> (r: bool)
    ensures
        r == bytes_le(a@, b@),
{
    let mut i: usize = 0;
    assert(a@.skip(0) == a@ && b@.skip(0) == b@);
    while i < a.len() && i < b.len()
        invariant
            i <= a@.len(),
            i <= b@.len(),
            bytes_le(a@, b@) == bytes_le(a@.skip(i as int), b@.skip(i as int)),
        decreases a@.len() - i,
    {
        assert(a@.skip(i as int)[0] == a@[i as int]);
        assert(b@.skip(i as int)[0] == b@[i as int]);
        if a[i] != b[i] {
            return a[i] < b[i];
        }
        assert(a@.skip(i as int).drop_first() == a@.skip(i + 1));
        assert(b@.skip(i as int).drop_first() == b@.skip(i + 1));
        i = i + 1;
    }
    i >= a.len()
}

/// Copies bytes.
pub fn copy_bytes(v: &Vec<u8>) -> (r: Vec<u8>)
    ensures
        r@ == v@,
{
    let r: Vec<u8> = v.clone();
    assert(r@ =~= v@);
    r
}

/// Whether two byte strings are equal.
pub fn same_bytes(a: &Vec<u8>, b: &Vec<u8>) -> (r: bool)
    ensures
        r == (a@ == b@),
{
    if a.len() != b.len() {
        return false;
    }
    let mut i: usize = 0;
    while i < a.len()
        invariant
            i <= a@.len(),
            a@.len() == b@.len(),
            forall|j: int| 0 <= j < i ==> a@[j] == b@[j],
        decreases a@.len() - i,
    {
        if a[i] != b[i] {
            return false;
        }
        i = i + 1;
    }
    assert(a@ =~= b@);
    true
}

impl Clone for DiskPath {
    fn clone(&self) -> (r: DiskPath)
        ensures
            r@ == self@,
    {
        DiskPath { bytes: copy_bytes(&self.bytes) }
    }
}

impl DiskPath {
    /// The path that a text spells.
    pub fn new(spelled: &str) -> (r: DiskPath)
        ensures
            r@ == encode_utf8(spelled@),
    {
        DiskPath { bytes: vstd::slice::slice_to_vec(spelled.as_bytes()) }
    }

    /// The path made of `bytes`.
    pub fn from_bytes(bytes: Vec<u8>) -> (r: DiskPath)
        ensures
            r@ == bytes@,
    {
        DiskPath { bytes }
    }

    /// The path `rel` taken from this directory.
    pub fn join(&self, rel: &DiskPath) -> (r: DiskPath)
        ensures
            r@ == joined(self@, rel@),
    {
        let mut tail: Vec<u8> = copy_bytes(&rel.bytes);
        if tail.len() > 0 && tail[0] == 47 {
            return DiskPath { bytes: tail };
        }
        let mut bytes: Vec<u8> = copy_bytes(&self.bytes);
        if bytes.len() > 0 && bytes[bytes.len() - 1] != 47 {
            bytes.push(47);
        }
        bytes.append(&mut tail);
        DiskPath { bytes }
    }

    /// Whether two paths are the same bytes.
    pub fn same(&self, other: &DiskPath) -> (r: bool)
        ensures
            r == (self@ == other@),
    {
        same_bytes(&self.bytes, &other.bytes)
    }

    /// The path as text for people to read.
    pub fn display(&self) -> (r: String)
        ensures
            r@ == text::lossy_utf8(self@),
            valid_utf8(self@) ==> r@ == decode_utf8(self@),
    {
        text::lossy_text(self.bytes.as_slice())
    }

    /// The last component of the path.
    pub fn file_name(&self) -> (r: Option<Vec<u8>>)
        ensures
            match r {
                Some(name) => file_name(self@) == Some(name@),
                None => file_name(self@) is None,
            },
    {
        let parts: Vec<Vec<u8>> = self.parts();
        let mut last: Option<Vec<u8>> = None;
        let ghost named = |part: Seq<u8>| part.len() != 0 && part != seq![46u8];
        let ghost all = text::split_on(self@, 47u8);
        let mut i: usize = 0;
        assert(all.take(0).filter(named).len() == 0) by {
            reveal(Seq::filter);
        }
        while i < parts.len()
            invariant
                i <= parts@.len(),
                all == text::split_on(self@, 47u8),
                named == (|part: Seq<u8>| part.len() != 0 && part != seq![46u8]),
                parts@.len() == all.len(),
                forall|j: int| 0 <= j < all.len() ==> (#[trigger] parts@[j])@ == all[j],
                match last {
                    Some(name) => all.take(i as int).filter(named).len() > 0
                        && name@ == all.take(i as int).filter(named).last(),
                    None => all.take(i as int).filter(named).len() == 0,
                },
            decreases parts@.len() - i,
        {
            let part: &Vec<u8> = &parts[i];
            let skip: bool = part.len() == 0 || (part.len() == 1 && part[0] == 46);
            assert(skip == !named(part@)) by {
                if part@ == seq![46u8] {
                    assert(part@[0] == 46u8);
                } else if part@.len() == 1 && part@[0] == 46u8 {
                    assert(part@ =~= seq![46u8]);
                }
            }
            proof {
                reveal(Seq::filter);
                assert(all.take(i + 1).drop_last() == all.take(i as int));
                assert(all.take(i + 1).last() == part@);
            }
            if !skip {
                last = Some(copy_bytes(part));
            }
            i = i + 1;
        }
        assert(all.take(all.len() as int) == all);
        match last {
            Some(name) => {
                if name.len() == 2 && name[0] == 46 && name[1] == 46 {
                    assert(name@ =~= seq![46u8, 46u8]);
                    None
                } else {
                    assert(name@ != seq![46u8, 46u8]) by {
                        if name@ == seq![46u8, 46u8] {
                            assert(name@[0] == 46u8 && name@[1] == 46u8);
                        }
                    }
                    Some(name)
                }
            },
            None => None,
        }
    }

    /// The name of the path as text.
    pub fn name(&self) -> (r: String)
        ensures
            r@ == name_text(self@),
    {
        match self.file_name() {
            Some(name) => match text::utf8_text(name.as_slice()) {
                Some(name) => name,
                None => String::new(),
            },
            None => String::new(),
        }
    }

    fn parts(&self) -> (r: Vec<Vec<u8>>)
        ensures
            r@.len() == text::split_on(self@, 47u8).len(),
            r@.len() > 0,
            forall|j: int|
                0 <= j < r@.len() ==> (#[trigger] r@[j])@ == text::split_on(self@, 47u8)[j],
    {
        let mut done: Vec<Vec<u8>> = Vec::new();
        let mut cur: Vec<u8> = Vec::new();
        let mut i: usize = 0;
        assert(self@.take(0) == Seq::<u8>::empty());
        while i < self.bytes.len()
            invariant
                i <= self@.len(),
                done@.len() + 1 == text::split_on(self@.take(i as int), 47u8).len(),
                forall|j: int|
                    0 <= j < done@.len() ==> (#[trigger] done@[j])@ == text::split_on(
                        self@.take(i as int),
                        47u8,
                    )[j],
                cur@ == text::split_on(self@.take(i as int), 47u8).last(),
            decreases self@.len() - i,
        {
            let b: u8 = self.bytes[i];
            assert(self@.take(i + 1).drop_last() == self@.take(i as int));
            assert(self@.take(i + 1).last() == b);
            if b == 47 {
                done.push(cur);
                cur = Vec::new();
            } else {
                cur.push(b);
            }
            i = i + 1;
        }
        assert(self@.take(self@.len() as int) == self@);
        done.push(cur);
        done
    }
}

/// The first byte in which two byte strings differ decides their order.
pub proof fn law_first_difference_decides(a: Seq<u8>, b: Seq<u8>, k: int)
    requires
        0 <= k < a.len(),
        k < b.len(),
        forall|j: int| 0 <= j < k ==> #[trigger] a[j] == b[j],
        a[k] != b[k],
    ensures
        bytes_le(a, b) <==> a[k] < b[k],
    decreases k,
{
    if k > 0 {
        let x = a.drop_first();
        let y = b.drop_first();
        assert(a[0] == b[0]);
        assert forall|j: int| 0 <= j < k - 1 implies #[trigger] x[j] == y[j] by {
            assert(a[j + 1] == b[j + 1]);
        }
        law_first_difference_decides(x, y, k - 1);
    }
}

/// The beginning of a byte string comes before it.
pub proof fn law_beginnings_come_first(a: Seq<u8>, rest: Seq<u8>)
    ensures
        bytes_le(a, a + rest),
        rest.len() > 0 ==> !bytes_le(a + rest, a),
    decreases a.len(),
{
    if a.len() > 0 {
        law_beginnings_come_first(a.drop_first(), rest);
        assert((a + rest).drop_first() =~= a.drop_first() + rest);
    }
}

/// A path taken from a directory lies in it, after exactly one slash; one that
/// starts at the root stands for itself.
pub proof fn law_joining_puts_one_slash_between(base: Seq<u8>, rel: Seq<u8>)
    ensures
        rel.len() > 0 && rel[0] == 47u8 ==> joined(base, rel) == rel,
        (rel.len() == 0 || rel[0] != 47u8) && base.len() > 0 && base.last() != 47u8 ==> joined(
            base,
            rel,
        ) == base + seq![47u8] + rel,
        (rel.len() == 0 || rel[0] != 47u8) && base.len() > 0 && base.last() == 47u8 ==> joined(
            base,
            rel,
        ) == base + rel,
        (rel.len() == 0 || rel[0] != 47u8) && base.len() == 0 ==> joined(base, rel) == rel,
{
    if (rel.len() == 0 || rel[0] != 47u8) && base.len() > 0 && base.last() != 47u8 {
        assert(base.push(47u8) + rel =~= base + seq![47u8] + rel);
    }
    if base.len() == 0 {
        assert(base + rel =~= rel);
    }
}

/// The name of an entry of a directory is what was put behind the last slash, and a
/// slash behind it changes nothing.
pub proof fn law_the_name_is_behind_the_last_slash(dir: Seq<u8>, name: Seq<u8>)
    requires
        name.len() > 0,
        !name.contains(47u8),
        name != seq![46u8],
        name != seq![46u8, 46u8],
    ensures
        file_name(name) == Some(name),
        file_name(dir + seq![47u8] + name) == Some(name),
        file_name(dir + seq![47u8] + name + seq![47u8]) == Some(name),
        valid_utf8(name) ==> name_text(dir + seq![47u8] + name) == decode_utf8(name),
{
    reveal(Seq::filter);
    let keep = |part: Seq<u8>| part.len() != 0 && part != seq![46u8];
    assert forall|i: int| 0 <= i < name.len() implies #[trigger] name[i] != 47u8 by {
        assert(name.contains(name[i]));
    }
    text::lemma_split_field(dir, name, 47u8);
    let whole = dir + seq![47u8] + name;
    assert(whole =~= dir.push(47u8) + name);
    let parts = text::split_on(whole, 47u8);
    assert(parts.drop_last() =~= text::split_on(dir, 47u8));
    assert(parts.filter(keep) =~= text::split_on(dir, 47u8).filter(keep).push(name));
    let alone = text::split_on(name, 47u8);
    assert(alone == seq![name]);
    assert(alone.drop_last() =~= Seq::empty());
    assert(alone.filter(keep) =~= Seq::<Seq<u8>>::empty().filter(keep).push(name));
    let slashed = whole + seq![47u8];
    assert(slashed =~= whole.push(47u8));
    assert(slashed.drop_last() =~= whole);
    let more = text::split_on(slashed, 47u8);
    assert(more.drop_last() =~= parts);
    assert(more.last() == Seq::<u8>::empty());
    assert(more.filter(keep) =~= parts.filter(keep));
}

/// A path that ends in `..`, and one without any name in it, has no name.
pub proof fn law_no_name_without_a_last_component(dir: Seq<u8>)
    ensures
        file_name(dir + seq![47u8, 46u8, 46u8]) is None,
        file_name(seq![47u8]) is None,
        file_name(Seq::empty()) is None,
        name_text(dir + seq![47u8, 46u8, 46u8]) == Seq::<char>::empty(),
{
    reveal(Seq::filter);
    let keep = |part: Seq<u8>| part.len() != 0 && part != seq![46u8];
    let up = seq![46u8, 46u8];
    let whole = dir + seq![47u8, 46u8, 46u8];
    assert(whole =~= dir.push(47u8) + up);
    text::lemma_split_field(dir, up, 47u8);
    let parts = text::split_on(whole, 47u8);
    assert(parts.drop_last() =~= text::split_on(dir, 47u8));
    assert(up.len() == 2 && seq![46u8].len() == 1);
    assert(parts.filter(keep) =~= text::split_on(dir, 47u8).filter(keep).push(up));
    let none = text::split_on(Seq::<u8>::empty(), 47u8);
    assert(none.drop_last() =~= Seq::empty());
    assert(Seq::<Seq<u8>>::empty().filter(keep) =~= Seq::empty());
    assert(!keep(none.last()));
    assert(none.filter(keep) =~= Seq::empty());
    let root = text::split_on(seq![47u8], 47u8);
    assert(seq![47u8].drop_last() =~= Seq::empty());
    assert(root.drop_last() =~= none);
    assert(root.last() == Seq::<u8>::empty());
    assert(root.filter(keep) =~= Seq::empty());
}

} // verus!
