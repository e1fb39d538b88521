//! Sizes: actual on-disk allocated bytes, not apparent file length, so sparse
//! images and clones are not overstated; and how sizes are written for people.

use crate::double;
use crate::text;
use vstd::prelude::*;

verus! {

/// The bytes of allocated 512-byte blocks, as far as they can be counted. A
/// negative count is none.
pub open spec fn block_bytes(blocks_512: int) -> int {
    if blocks_512 <= 0 {
        0
    } else if blocks_512 * 512 > u64::MAX {
        u64::MAX as int
    } else {
        blocks_512 * 512
    }
}

/// Convert allocated 512-byte block counts into actual on-disk bytes, not
/// apparent file length.
pub fn on_disk_bytes_from_blocks(blocks_512: i64) -> (r: u64)
    ensures
        r == block_bytes(blocks_512 as int),
{
    if blocks_512 <= 0 {
        0
    } else {
        match (blocks_512 as u64).checked_mul(512) {
            Some(bytes) => bytes,
            None => u64::MAX,
        }
    }
}

/// The bytes in the largest unit that a size reaches, from a kilobyte to a
/// petabyte; one byte for smaller sizes.
pub open spec fn unit_bytes(size: nat) -> nat {
    if size < 0x400 {
        1
    } else if size < 0x10_0000 {
        0x400
    } else if size < 0x4000_0000 {
        0x10_0000
    } else if size < 0x100_0000_0000 {
        0x4000_0000
    } else if size < 0x4_0000_0000_0000 {
        0x100_0000_0000
    } else {
        0x4_0000_0000_0000
    }
}

/// The letter of a unit.
pub open spec fn unit_letter(unit: nat) -> Seq<char> {
    if unit == 1 {
        "B"@
    } else if unit == 0x400 {
        "K"@
    } else if unit == 0x10_0000 {
        "M"@
    } else if unit == 0x4000_0000 {
        "G"@
    } else if unit == 0x100_0000_0000 {
        "T"@
    } else {
        "P"@
    }
}

/// A size for people: whole bytes, or the size in the largest unit that it
/// reaches, with one digit after the point. Past bytes, the size is taken as the
/// double nearest to it.
pub open spec fn human_text(bytes: nat) -> Seq<char> {
    let size = double::double_of(bytes);
    let unit = unit_bytes(size);
    if unit == 1 {
        text::decimal(bytes) + unit_letter(unit)
    } else {
        let tenths = double::rounded(10 * size, unit);
        text::decimal(tenths / 10) + "."@ + text::decimal(tenths % 10) + unit_letter(unit)
    }
}

/// Human-friendly size, in the style of `du -h`.
pub fn human(bytes: u64) -> (r: String)
    ensures
        r@ == human_text(bytes as nat),
{
    let size: u128 = double::to_double(bytes as u128);
    let (unit, letter): (u128, &str) = if size < 0x400 {
        (1, "B")
    } else if size < 0x10_0000 {
        (0x400, "K")
    } else if size < 0x4000_0000 {
        (0x10_0000, "M")
    } else if size < 0x100_0000_0000 {
        (0x4000_0000, "G")
    } else if size < 0x4_0000_0000_0000 {
        (0x100_0000_0000, "T")
    } else {
        (0x4_0000_0000_0000, "P")
    };
    if unit == 1 {
        return text::decimal_text(bytes).concat(letter);
    }
    let tenths: u128 = double::round_ratio(10 * size, unit);
    proof {
        double::lemma_rounded_bound((10 * size) as nat, unit as nat);
        assert(tenths * unit >= tenths * 0x400) by (nonlinear_arith)
            requires
                unit >= 0x400,
                tenths >= 0,
        ;
    }
    text::decimal_text((tenths / 10) as u64).concat(".").concat(
        text::decimal_text((tenths % 10) as u64).as_str(),
    ).concat(letter)
}

/// Blocks are 512 bytes each; what is too much to count is the most that can be,
/// and a negative count is nothing.
pub proof fn law_a_block_is_512_bytes(blocks: int)
    ensures
        blocks <= 0 ==> block_bytes(blocks) == 0,
        0 <= blocks <= 0x7f_ffff_ffff_ffff ==> block_bytes(blocks) == 512 * blocks,
        blocks > 0x7f_ffff_ffff_ffff ==> block_bytes(blocks) == u64::MAX,
{
}

/// Below a kilobyte the bytes are written out. Above, the size is written in the
/// largest unit that it reaches, each 1024 times the one before, to the nearest
/// tenth. Sizes of up to 53 bits are taken as they are.
pub proof fn law_a_size_is_written_in_its_unit(bytes: nat, unit: nat, letter: Seq<char>)
    requires
        bytes < 0x20_0000_0000_0000,
        unit <= bytes,
        ({
            ||| unit == 0x400 && letter == "K"@ && bytes < 1024 * unit
            ||| unit == 0x400 * 0x400 && letter == "M"@ && bytes < 1024 * unit
            ||| unit == 0x400 * 0x400 * 0x400 && letter == "G"@ && bytes < 1024 * unit
            ||| unit == 0x400 * 0x400 * 0x400 * 0x400 && letter == "T"@ && bytes < 1024 * unit
            ||| unit == 0x400 * 0x400 * 0x400 * 0x400 * 0x400 && letter == "P"@
        }),
    ensures
        exists|tenths: nat|
            -(unit as int) <= 2 * (tenths * unit - 10 * bytes) <= unit && human_text(bytes)
                == #[trigger] text::decimal(tenths / 10) + "."@ + text::decimal(tenths % 10)
                + letter,
{
    double::law_doubles_hold_53_bits(bytes);
    let tenths = double::rounded(10 * bytes, unit);
    double::law_rounding_is_to_the_nearest(10 * bytes, unit);
    assert(human_text(bytes) == text::decimal(tenths / 10) + "."@ + text::decimal(tenths % 10)
        + letter);
}

/// A size below a kilobyte is written in bytes, without a point.
pub proof fn law_a_small_size_is_written_in_bytes(bytes: nat)
    requires
        bytes < 1024,
    ensures
        human_text(bytes) == text::decimal(bytes) + "B"@,
{
    double::law_doubles_hold_53_bits(bytes);
}

} // verus!
