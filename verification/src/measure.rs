//! Measuring a tree: what each entry of a directory takes on disk, which
//! directories are walked and which are measured whole, and how the measured
//! entries come together in depth-first order.

use crate::classify;
use crate::classify::Markers;
use crate::path;
use crate::path::DiskPath;
use crate::ruleset::Ruleset;
use crate::scan;
use crate::tree;
use crate::tree::Tree;
use crate::walk;
use crate::walk::WalkEntry;
use vstd::prelude::*;
use vstd::utf8::*;

verus! {

/// Whether a file mode is that of a directory.
pub fn mode_is_dir(mode: u32) -> (r: bool)
    ensures
        r == ((mode / 0x1000) % 16 == 4),
{
    assert((mode & 0xf000 == 0x4000) == ((mode / 0x1000) % 16 == 4)) by (bit_vector);
    mode & 0xf000 == 0x4000
}

/// Whether a file mode is that of a regular file.
pub fn mode_is_reg(mode: u32) -> (r: bool)
    ensures
        r == ((mode / 0x1000) % 16 == 8),
{
    assert((mode & 0xf000 == 0x8000) == ((mode / 0x1000) % 16 == 8)) by (bit_vector);
    mode & 0xf000 == 0x8000
}

/// The number that bytes spell, least significant first.
pub open spec fn little_endian(bytes: Seq<u8>) -> nat
    decreases bytes.len(),
{
    if bytes.len() == 0 {
        0
    } else {
        bytes[0] as nat + 256 * little_endian(bytes.drop_first())
    }
}

/// The number that bytes spell in the byte order of a machine.
pub open spec fn number_in(bytes: Seq<u8>, least_first: bool) -> nat {
    if least_first {
        little_endian(bytes)
    } else {
        little_endian(bytes.reverse())
    }
}

/// A 64-bit number taken as signed.
pub open spec fn signed(n: nat) -> int {
    if n < 0x8000_0000_0000_0000 {
        n as int
    } else {
        n - 0x1_0000_0000_0000_0000
    }
}

/// Reads `len` bytes of `buf` from `from` as a number.
fn read_number(buf: &[u8; 12], from: usize, len: usize, least_first: bool) -> (r: u64)
    requires
        from + len <= 12,
        len <= 8,
    ensures
        r as nat == number_in(buf@.subrange(from as int, from + len), least_first),
{
    let ghost part = buf@.subrange(from as int, from + len);
    let ghost bytes = if least_first {
        part
    } else {
        part.reverse()
    };
    let mut n: u64 = 0;
    let mut i: usize = len;
    assert(little_endian(bytes.skip(len as int)) == 0);
    while i > 0
        invariant
            i <= len <= 8,
            from + len <= 12,
            part == buf@.subrange(from as int, from + len),
            bytes == (if least_first {
                part
            } else {
                part.reverse()
            }),
            n as nat == little_endian(bytes.skip(i as int)),
            i == 8 ==> n == 0,
            i == 7 ==> n < 0x100,
            i == 6 ==> n < 0x1_0000,
            i == 5 ==> n < 0x100_0000,
            i == 4 ==> n < 0x1_0000_0000,
            i == 3 ==> n < 0x100_0000_0000,
            i == 2 ==> n < 0x1_0000_0000_0000,
            i == 1 ==> n < 0x100_0000_0000_0000,
        decreases i,
    {
        i = i - 1;
        let at: usize = if least_first {
            from + i
        } else {
            from + (len - 1 - i)
        };
        assert(bytes.skip(i as int)[0] == buf@[at as int]);
        assert(bytes.skip(i as int).drop_first() =~= bytes.skip(i + 1));
        n = 256 * n + (buf[at] as u64);
    }
    assert(bytes.skip(0) =~= bytes);
    n
}

/// The value of the one attribute that was asked for, given what the system
/// answered: whether it succeeded, and a buffer of a length word and the value.
/// The length word counts itself, so anything below 12 means that the value was
/// not written: a real 0 is kept, and an attribute that the file system does not
/// have is absent.
pub fn attribute_value(succeeded: bool, buf: &[u8; 12], least_first: bool) -> (r: Option<i64>)
    ensures
        match r {
            Some(value) => {
                &&& succeeded
                &&& number_in(buf@.subrange(0, 4), least_first) >= 12
                &&& value == signed(number_in(buf@.subrange(4, 12), least_first))
            },
            None => !succeeded || number_in(buf@.subrange(0, 4), least_first) < 12,
        },
{
    if !succeeded || read_number(buf, 0, 4, least_first) < 12 {
        return None;
    }
    let n: u64 = read_number(buf, 4, 8, least_first);
    if n < 0x8000_0000_0000_0000 {
        Some(n as i64)
    } else {
        let below: u64 = 0xffff_ffff_ffff_ffff - n;
        Some(-1 - (below as i64))
    }
}

/// The size of a whole directory, given its attribute. A file system without
/// recursive sizes says 0, so only a positive size is one.
pub fn total_size(attribute: Option<i64>) -> (r: Option<u64>)
    ensures
        match attribute {
            Some(n) => if n > 0 {
                r == Some(n as u64)
            } else {
                r is None
            },
            None => r is None,
        },
{
    match attribute {
        Some(n) => if n > 0 {
            Some(n as u64)
        } else {
            None
        },
        None => None,
    }
}

/// The bytes that only one file holds, given its attribute. All blocks of a clone
/// may be shared, so 0 is a size.
pub fn private_size(attribute: Option<i64>) -> (r: Option<u64>)
    ensures
        match attribute {
            Some(n) => if n >= 0 {
                r == Some(n as u64)
            } else {
                r is None
            },
            None => r is None,
        },
{
    match attribute {
        Some(n) => if n >= 0 {
            Some(n as u64)
        } else {
            None
        },
        None => None,
    }
}

/// On-disk bytes of one entry. For a regular file this is the private size, what
/// deleting it actually frees, whenever the file system supplies it; otherwise
/// it is the size of the allocated blocks.
pub fn entry_on_disk_bytes(mode: u32, private: Option<u64>, blocks_512: i64) -> (r: u64)
    ensures
        (mode / 0x1000) % 16 == 8 && private is Some ==> r == private->0,
        (mode / 0x1000) % 16 != 8 || private is None ==> r == scan::block_bytes(
            blocks_512 as int,
        ),
{
    if mode_is_reg(mode) {
        if let Some(private) = private {
            return private;
        }
    }
    scan::on_disk_bytes_from_blocks(blocks_512)
}

/// A total of sizes.
pub open spec fn sum_of(sizes: Seq<u64>) -> nat
    decreases sizes.len(),
{
    if sizes.len() == 0 {
        0
    } else {
        sum_of(sizes.drop_last()) + sizes.last() as nat
    }
}

/// The bytes of a directory and of everything below it, unless there are too many
/// to count.
pub fn tree_bytes(own: u64, below: &Vec<u64>) -> (r: Option<u64>)
    ensures
        match r {
            Some(total) => total == own + sum_of(below@),
            None => own + sum_of(below@) > u64::MAX,
        },
{
    let mut total: u64 = own;
    let mut i: usize = 0;
    assert(sum_of(below@.take(0)) == 0);
    while i < below.len()
        invariant
            i <= below@.len(),
            total == own + sum_of(below@.take(i as int)),
        decreases below@.len() - i,
    {
        proof {
            assert(below@.take(i + 1).drop_last() =~= below@.take(i as int));
            lemma_sum_prefix(below@, i + 1);
        }
        match total.checked_add(below[i]) {
            Some(sum) => {
                total = sum;
            },
            None => {
                return None;
            },
        }
        i = i + 1;
    }
    assert(below@.take(below@.len() as int) =~= below@);
    Some(total)
}

proof fn lemma_sum_prefix(sizes: Seq<u64>, n: int)
    requires
        0 <= n <= sizes.len(),
    ensures
        sum_of(sizes.take(n)) <= sum_of(sizes),
    decreases sizes.len() - n,
{
    if n < sizes.len() {
        lemma_sum_prefix(sizes, n + 1);
        assert(sizes.take(n + 1).drop_last() =~= sizes.take(n));
    } else {
        assert(sizes.take(n) =~= sizes);
    }
}

/// Where a marker of a directory lies, seen from the parent of the directory.
pub fn child_marker(entry_name: &Vec<u8>, child: &str) -> (r: DiskPath)
    ensures
        r@ == entry_name@.push(47u8) + encode_utf8(child@),
{
    let mut bytes: Vec<u8> = path::copy_bytes(entry_name);
    let mut tail: DiskPath = DiskPath::new(child);
    bytes.push(47);
    bytes.append(&mut tail.bytes);
    DiskPath { bytes }
}

/// Whether a name that a directory lists is an entry of it: it is neither the
/// directory itself nor its parent.
pub fn is_entry_name(name: &Vec<u8>) -> (r: bool)
    ensures
        r == (name@ != seq![46u8] && name@ != seq![46u8, 46u8]),
{
    let this: bool = name.len() == 1 && name[0] == 46;
    let parent: bool = name.len() == 2 && name[0] == 46 && name[1] == 46;
    assert(this == (name@ == seq![46u8])) by {
        if this {
            assert(name@ =~= seq![46u8]);
        } else if name@ == seq![46u8] {
            assert(name@[0] == 46u8);
        }
    }
    assert(parent == (name@ == seq![46u8, 46u8])) by {
        if parent {
            assert(name@ =~= seq![46u8, 46u8]);
        } else if name@ == seq![46u8, 46u8] {
            assert(name@[0] == 46u8 && name@[1] == 46u8);
        }
    }
    !this && !parent
}

/// One measured entry, with the first Rule that matches it.
pub fn walk_entry(
    ruleset: &Ruleset,
    path: DiskPath,
    depth: usize,
    is_dir: bool,
    bytes: u64,
    markers: &Markers,
) -> (r: WalkEntry)
    ensures
        r.path@ == path@,
        r.depth == depth,
        r.is_dir == is_dir,
        r.bytes == bytes,
        classify::is_first_match(
            ruleset@,
            classify::subject(path@, is_dir, *markers),
            r.rule_idx,
        ),
{
    let rule_idx: Option<usize> = classify::match_rule_index(ruleset, &path, is_dir, markers);
    WalkEntry { path, depth, is_dir, bytes, rule_idx }
}

/// What is to be done with an entry of a directory.
#[derive(Debug, Clone, Copy, PartialEq, Eq, Structural)]
pub enum ChildPlan {
    /// Nothing lies below it.
    Leaf,
    /// A Rule matched the directory, so it is one Item: only its whole size is
    /// needed.
    MeasureWhole,
    /// Look at what the directory holds.
    Descend,
}

/// Decides what to do with an entry. A matched directory is never walked.
pub fn plan_child(entry: &WalkEntry) -> (r: ChildPlan)
    ensures
        r == (if !entry.is_dir {
            ChildPlan::Leaf
        } else if entry.rule_idx is Some {
            ChildPlan::MeasureWhole
        } else {
            ChildPlan::Descend
        }),
{
    if !entry.is_dir {
        ChildPlan::Leaf
    } else if entry.rule_idx.is_some() {
        ChildPlan::MeasureWhole
    } else {
        ChildPlan::Descend
    }
}

/// A measured directory and everything below it, the directory first.
pub fn with_below(entry: WalkEntry, below: Vec<WalkEntry>) -> (r: Vec<WalkEntry>)
    ensures
        r@ == seq![entry] + below@,
        forall|ts: Seq<Tree>| #[trigger]
            tree::preorder_all(ts, entry.depth as nat + 1) == walk::steps(below@)
                ==> tree::preorder((Tree { entry: entry@.entry, below: ts }), entry.depth as nat)
                == walk::steps(r@),
{
    let mut all: Vec<WalkEntry> = Vec::new();
    let mut rest: Vec<WalkEntry> = below;
    all.push(entry);
    all.append(&mut rest);
    assert(all@ =~= seq![entry] + below@);
    assert forall|ts: Seq<Tree>| #[trigger]
        tree::preorder_all(ts, entry.depth as nat + 1) == walk::steps(below@) implies tree::preorder(
        (Tree { entry: entry@.entry, below: ts }),
        entry.depth as nat,
    ) == walk::steps(all@) by {
        assert(walk::steps(all@) =~= seq![entry@] + walk::steps(below@));
    }
    all
}

/// Whether the walk of each subtree lists one of the trees, in their order.
pub open spec fn lists_trees(subtrees: Seq<Vec<WalkEntry>>, ts: Seq<Tree>, depth: nat) -> bool {
    &&& subtrees.len() == ts.len()
    &&& forall|k: int|
        0 <= k < ts.len() ==> walk::steps((#[trigger] subtrees[k])@) == tree::preorder(
            ts[k],
            depth,
        )
}

/// The walks of all entries of a directory, one after the other.
pub fn joined(subtrees: Vec<Vec<WalkEntry>>) -> (r: Vec<WalkEntry>)
    ensures
        r@ == Seq::new(subtrees@.len(), |k: int| subtrees@[k]@).flatten(),
        forall|ts: Seq<Tree>, depth: nat| #[trigger]
            lists_trees(subtrees@, ts, depth) ==> tree::preorder_all(ts, depth) == walk::steps(
                r@,
            ),
{
    let mut all: Vec<WalkEntry> = Vec::new();
    let mut rest: Vec<Vec<WalkEntry>> = subtrees;
    let ghost parts = Seq::new(subtrees@.len(), |k: int| subtrees@[k]@);
    let mut done: usize = 0;
    assert(parts.take(0) =~= Seq::empty());
    while done < rest.len()
        invariant
            parts == Seq::new(subtrees@.len(), |k: int| subtrees@[k]@),
            done <= rest@.len(),
            rest@.len() == subtrees@.len(),
            forall|k: int| done <= k < subtrees@.len() ==> rest@[k] == #[trigger] subtrees@[k],
            all@ == parts.take(done as int).flatten(),
            forall|ts: Seq<Tree>, depth: nat| #[trigger]
                lists_trees(subtrees@, ts, depth) ==> tree::preorder_all(ts.take(done as int), depth)
                    == walk::steps(all@),
        decreases rest@.len() - done,
    {
        let ghost held = all@;
        let mut part: Vec<WalkEntry> = Vec::new();
        std::mem::swap(&mut part, &mut rest[done]);
        assert(part == subtrees@[done as int]);
        all.append(&mut part);
        proof {
            assert(parts.take(done + 1) =~= parts.take(done as int).push(parts[done as int]));
            parts.take(done as int).lemma_flatten_push(parts[done as int]);
            assert forall|ts: Seq<Tree>, depth: nat| #[trigger]
                lists_trees(subtrees@, ts, depth) implies tree::preorder_all(
                ts.take(done + 1),
                depth,
            ) == walk::steps(all@) by {
                assert(ts.take(done + 1).drop_last() =~= ts.take(done as int));
                assert(walk::steps(all@) =~= walk::steps(held) + walk::steps(
                    subtrees@[done as int]@,
                ));
            }
        }
        done = done + 1;
    }
    proof {
        assert(parts.take(done as int) =~= parts);
        assert forall|ts: Seq<Tree>, depth: nat| #[trigger]
            lists_trees(subtrees@, ts, depth) implies tree::preorder_all(ts, depth)
            == walk::steps(all@) by {
            assert(ts.take(done as int) =~= ts);
        }
    }
    all
}

/// The bytes of all measured entries, unless there are too many to count.
pub fn walked_total(entries: &Vec<WalkEntry>) -> (r: Option<u64>)
    ensures
        match r {
            Some(total) => total == walk::walked_bytes(walk::steps(entries@)),
            None => walk::walked_bytes(walk::steps(entries@)) > u64::MAX,
        },
{
    let mut total: u64 = 0;
    let mut i: usize = 0;
    let ghost walked = walk::steps(entries@);
    assert(walk::walked_bytes(walked.take(0)) == 0);
    while i < entries.len()
        invariant
            i <= entries@.len(),
            walked == walk::steps(entries@),
            total == walk::walked_bytes(walked.take(i as int)),
        decreases entries@.len() - i,
    {
        proof {
            assert(walked.take(i + 1).drop_last() =~= walked.take(i as int));
            assert(walked.take(i + 1).last() == entries@[i as int]@);
            walk::lemma_walked_prefix(walked, i + 1);
        }
        match total.checked_add(entries[i].bytes) {
            Some(sum) => {
                total = sum;
            },
            None => {
                return None;
            },
        }
        i = i + 1;
    }
    assert(walked.take(walked.len() as int) =~= walked);
    Some(total)
}

/// In little-endian order a byte put behind the others counts for as much as they
/// have room for; in big-endian order it is the least of them, and the others count
/// 256 times as much.
pub proof fn law_byte_orders(bytes: Seq<u8>, b: u8)
    ensures
        number_in(Seq::empty(), true) == 0,
        number_in(Seq::empty(), false) == 0,
        number_in(seq![b] + bytes, true) == b + 256 * number_in(bytes, true),
        number_in(bytes.push(b), false) == 256 * number_in(bytes, false) + b,
{
    assert((seq![b] + bytes).drop_first() =~= bytes);
    assert(bytes.push(b).reverse() =~= seq![b] + bytes.reverse());
    assert((seq![b] + bytes.reverse()).drop_first() =~= bytes.reverse());
    assert(Seq::<u8>::empty().reverse() =~= Seq::<u8>::empty());
}

/// A signed number is the same 64 bits read in two's complement.
pub proof fn law_signed_numbers_wrap(n: nat)
    requires
        n < 0x1_0000_0000_0000_0000,
    ensures
        -0x8000_0000_0000_0000 <= signed(n) < 0x8000_0000_0000_0000,
        signed(n) == n || signed(n) == n - 0x1_0000_0000_0000_0000,
{
}

/// One more size adds itself to the sum.
pub proof fn law_sizes_are_summed(sizes: Seq<u64>, size: u64)
    ensures
        sum_of(Seq::empty()) == 0,
        sum_of(sizes.push(size)) == sum_of(sizes) + size,
{
    assert(sizes.push(size).drop_last() =~= sizes);
}

} // verus!
