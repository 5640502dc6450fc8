//! Floating-point numbers by their bits. A number is written as the integer that
//! its sign, exponent and fraction bits form in the IEEE 754 interchange formats;
//! comparing two numbers is then comparing integers.
use vstd::prelude::*;

verus! {

/// Whether single-precision bits stand for a finite number: the eight exponent
/// bits are not all set.
pub open spec fn finite32(bits: u32) -> bool {
    (bits / 0x80_0000) % 256 != 255
}

/// Whether double-precision bits stand for a finite number: the eleven exponent
/// bits are not all set.
pub open spec fn finite64(bits: u64) -> bool {
    (bits / 0x10_0000_0000_0000) % 2048 != 2047
}

/// Whether double-precision bits stand for no number: all exponent bits are
/// set, and a fraction bit is.
pub open spec fn nan64(bits: u64) -> bool {
    !finite64(bits) && bits % 0x10_0000_0000_0000 != 0
}

pub open spec fn nan32(bits: u32) -> bool {
    !finite32(bits) && bits % 0x80_0000 != 0
}

/// Whether the bits stand for zero, with either sign.
pub open spec fn zero64(bits: u64) -> bool {
    bits == 0 || bits == 0x8000_0000_0000_0000
}

pub open spec fn zero32(bits: u32) -> bool {
    bits == 0 || bits == 0x8000_0000
}

/// The place of the bits in the order of all numbers: numbers with a sign run
/// backwards, below the numbers without.
pub open spec fn rank64(bits: u64) -> int {
    if bits < 0x8000_0000_0000_0000 {
        bits as int
    } else {
        0x7fff_ffff_ffff_ffff - bits
    }
}

pub open spec fn rank32(bits: u32) -> int {
    if bits < 0x8000_0000 {
        bits as int
    } else {
        0x7fff_ffff - bits
    }
}

/// Whether the left number is smaller: `<` on numbers, where the two zeros are
/// equal and nothing is smaller than what is no number.
pub open spec fn less64(left: u64, right: u64) -> bool {
    !nan64(left) && !nan64(right) && !(zero64(left) && zero64(right)) && rank64(left) < rank64(
        right,
    )
}

pub open spec fn less32(left: u32, right: u32) -> bool {
    !nan32(left) && !nan32(right) && !(zero32(left) && zero32(right)) && rank32(left) < rank32(
        right,
    )
}

/// Whether the left number is not larger: `<=` on numbers.
pub open spec fn at_most64(left: u64, right: u64) -> bool {
    !nan64(left) && !nan64(right) && !less64(right, left)
}

pub open spec fn at_most32(left: u32, right: u32) -> bool {
    !nan32(left) && !nan32(right) && !less32(right, left)
}

pub fn is_finite32(bits: u32) -> (finite: bool)
    ensures
        finite == finite32(bits),
{
    (bits / 0x80_0000) % 256 != 255
}

pub fn is_finite64(bits: u64) -> (finite: bool)
    ensures
        finite == finite64(bits),
{
    (bits / 0x10_0000_0000_0000) % 2048 != 2047
}

fn is_nan32(bits: u32) -> (found: bool)
    ensures
        found == nan32(bits),
{
    !is_finite32(bits) && bits % 0x80_0000 != 0
}

fn is_nan64(bits: u64) -> (found: bool)
    ensures
        found == nan64(bits),
{
    !is_finite64(bits) && bits % 0x10_0000_0000_0000 != 0
}

/// Whether the left number comes first when all bits are put in order.
pub fn ranks_below64(left: u64, right: u64) -> (below: bool)
    ensures
        below == (rank64(left) < rank64(right)),
{
    let left_negative = left >= 0x8000_0000_0000_0000;
    let right_negative = right >= 0x8000_0000_0000_0000;
    if left_negative && right_negative {
        left > right
    } else if left_negative {
        true
    } else if right_negative {
        false
    } else {
        left < right
    }
}

fn ranks_below32(left: u32, right: u32) -> (below: bool)
    ensures
        below == (rank32(left) < rank32(right)),
{
    let left_negative = left >= 0x8000_0000;
    let right_negative = right >= 0x8000_0000;
    if left_negative && right_negative {
        left > right
    } else if left_negative {
        true
    } else if right_negative {
        false
    } else {
        left < right
    }
}

pub fn is_less64(left: u64, right: u64) -> (less: bool)
    ensures
        less == less64(left, right),
{
    let zeros = (left == 0 || left == 0x8000_0000_0000_0000) && (right == 0 || right
        == 0x8000_0000_0000_0000);
    !is_nan64(left) && !is_nan64(right) && !zeros && ranks_below64(left, right)
}

pub fn is_less32(left: u32, right: u32) -> (less: bool)
    ensures
        less == less32(left, right),
{
    let zeros = (left == 0 || left == 0x8000_0000) && (right == 0 || right == 0x8000_0000);
    !is_nan32(left) && !is_nan32(right) && !zeros && ranks_below32(left, right)
}

pub fn is_at_most64(left: u64, right: u64) -> (at_most: bool)
    ensures
        at_most == at_most64(left, right),
{
    !is_nan64(left) && !is_nan64(right) && !is_less64(right, left)
}

pub fn is_at_most32(left: u32, right: u32) -> (at_most: bool)
    ensures
        at_most == at_most32(left, right),
{
    !is_nan32(left) && !is_nan32(right) && !is_less32(right, left)
}

/// Whether all single-precision values are finite.
pub open spec fn all_finite(values: Seq<u32>) -> bool {
    forall|i: int| 0 <= i < values.len() ==> finite32(#[trigger] values[i])
}

pub fn values_are_finite(values: &[u32]) -> (finite: bool)
    ensures
        finite == all_finite(values@),
{
    let mut index: usize = 0;
    while index < values.len()
        invariant
            index <= values@.len(),
            forall|i: int| 0 <= i < index ==> finite32(#[trigger] values@[i]),
        decreases values.len() - index,
    {
        if !is_finite32(values[index]) {
            assert(!finite32(values@[index as int]));
            return false;
        }
        index = index + 1;
    }
    true
}

/// Different bits never share a place, and every place is smaller than, equal
/// to or larger than another, so bits can be put in exactly one order.
pub proof fn ranks_are_distinct(left: u64, right: u64)
    ensures
        rank64(left) == rank64(right) <==> left == right,
{
}

/// Of two numbers, one is smaller or both are equal; what is no number is
/// neither smaller, nor at most, nor at least anything.
pub proof fn comparisons_are_consistent(left: u64, right: u64)
    ensures
        !nan64(left) && !nan64(right) ==> (at_most64(left, right) <==> !less64(right, left)),
        nan64(left) || nan64(right) ==> !less64(left, right) && !at_most64(left, right),
        less64(left, right) ==> at_most64(left, right) && !less64(right, left),
{
}


/// How bits stand in the order of numbers: without a sign, larger bits are larger
/// numbers; with one, they are smaller; and numbers with a sign are below those without,
/// but for the two zeros, which are equal.
pub proof fn bits_order_numbers(left: u64, right: u64)
    requires
        left & 0x7fff_ffff_ffff_ffff <= 0x7ff0_0000_0000_0000,
        right & 0x7fff_ffff_ffff_ffff <= 0x7ff0_0000_0000_0000,
    ensures
        left < 0x8000_0000_0000_0000 && right < 0x8000_0000_0000_0000 ==> (less64(left, right)
            <==> left < right) && (at_most64(left, right) <==> left <= right),
        left >= 0x8000_0000_0000_0000 && right >= 0x8000_0000_0000_0000 ==> (less64(left, right)
            <==> left > right) && (at_most64(left, right) <==> left >= right),
        left >= 0x8000_0000_0000_0000 && right < 0x8000_0000_0000_0000 ==> at_most64(left, right)
            && (less64(left, right) <==> !(left == 0x8000_0000_0000_0000 && right == 0)),
{
    assert(left & 0x7fff_ffff_ffff_ffff <= 0x7ff0_0000_0000_0000 ==> ((left
        / 0x10_0000_0000_0000) % 2048 != 2047 || left % 0x10_0000_0000_0000 == 0)) by (bit_vector);
    assert(right & 0x7fff_ffff_ffff_ffff <= 0x7ff0_0000_0000_0000 ==> ((right
        / 0x10_0000_0000_0000) % 2048 != 2047 || right % 0x10_0000_0000_0000 == 0)) by (bit_vector);
}

/// The same of numbers of half the width.
pub proof fn short_bits_order_numbers(left: u32, right: u32)
    requires
        left & 0x7fff_ffff <= 0x7f80_0000,
        right & 0x7fff_ffff <= 0x7f80_0000,
    ensures
        left < 0x8000_0000 && right < 0x8000_0000 ==> (less32(left, right) <==> left < right) && (
        at_most32(left, right) <==> left <= right),
        left >= 0x8000_0000 && right >= 0x8000_0000 ==> (less32(left, right) <==> left > right) && (
        at_most32(left, right) <==> left >= right),
        left >= 0x8000_0000 && right < 0x8000_0000 ==> at_most32(left, right) && (less32(left, right)
            <==> !(left == 0x8000_0000 && right == 0)),
{
    assert(left & 0x7fff_ffff <= 0x7f80_0000 ==> ((left / 0x80_0000) % 256 != 255 || left
        % 0x80_0000 == 0)) by (bit_vector);
    assert(right & 0x7fff_ffff <= 0x7f80_0000 ==> ((right / 0x80_0000) % 256 != 255 || right
        % 0x80_0000 == 0)) by (bit_vector);
}

/// A number is finite exactly where its bits without the sign are below those of
/// infinity; above them they stand for no number.
pub proof fn finite_numbers_are_below_infinity(double: u64, single: u32)
    ensures
        finite64(double) <==> double & 0x7fff_ffff_ffff_ffff < 0x7ff0_0000_0000_0000,
        nan64(double) <==> double & 0x7fff_ffff_ffff_ffff > 0x7ff0_0000_0000_0000,
        finite32(single) <==> single & 0x7fff_ffff < 0x7f80_0000,
        nan32(single) <==> single & 0x7fff_ffff > 0x7f80_0000,
{
    assert((double / 0x10_0000_0000_0000) % 2048 != 2047 <==> double & 0x7fff_ffff_ffff_ffff
        < 0x7ff0_0000_0000_0000) by (bit_vector);
    assert(((double / 0x10_0000_0000_0000) % 2048 == 2047 && double % 0x10_0000_0000_0000 != 0)
        <==> double & 0x7fff_ffff_ffff_ffff > 0x7ff0_0000_0000_0000) by (bit_vector);
    assert((single / 0x80_0000) % 256 != 255 <==> single & 0x7fff_ffff < 0x7f80_0000)
        by (bit_vector);
    assert(((single / 0x80_0000) % 256 == 255 && single % 0x80_0000 != 0) <==> single & 0x7fff_ffff
        > 0x7f80_0000) by (bit_vector);
}

} // verus!
