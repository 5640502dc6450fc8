//! Whole numbers as bytes, and byte strings behind their length.
use vstd::prelude::*;

verus! {

/// The number that bytes stand for, the lowest byte first.
pub open spec fn le_value(bytes: Seq<u8>) -> nat
    decreases bytes.len(),
{
    if bytes.len() == 0 {
        0
    } else {
        bytes[0] as nat + 256 * le_value(bytes.skip(1))
    }
}

/// The lowest `count` bytes of a number, the lowest first.
pub open spec fn le_bytes(value: nat, count: nat) -> Seq<u8>
    decreases count,
{
    if count == 0 {
        Seq::empty()
    } else {
        seq![(value % 256) as u8] + le_bytes(value / 256, (count - 1) as nat)
    }
}

/// The numbers that `count` bytes can hold.
pub open spec fn byte_range(count: nat) -> nat
    decreases count,
{
    if count == 0 {
        1
    } else {
        256 * byte_range((count - 1) as nat)
    }
}

pub proof fn byte_ranges()
    ensures
        byte_range(4) == 0x1_0000_0000,
        byte_range(8) == 0x1_0000_0000_0000_0000,
{
    reveal_with_fuel(byte_range, 9);
}

/// As many bytes come out as were asked for.
pub proof fn le_bytes_length(value: nat, count: nat)
    ensures
        le_bytes(value, count).len() == count,
    decreases count,
{
    if count > 0 {
        le_bytes_length(value / 256, (count - 1) as nat);
    }
}

/// A number that fits comes back from its bytes.
pub proof fn numbers_round_trip(value: nat, count: nat)
    requires
        value < byte_range(count),
    ensures
        le_value(le_bytes(value, count)) == value,
        le_bytes(value, count).len() == count,
    decreases count,
{
    if count > 0 {
        let rest = le_bytes(value / 256, (count - 1) as nat);
        numbers_round_trip(value / 256, (count - 1) as nat);
        let all = le_bytes(value, count);
        assert(all.skip(1) =~= rest);
        assert(all[0] == (value % 256) as u8);
    }
}

/// Bytes hold only numbers in their range.
pub proof fn values_are_in_range(bytes: Seq<u8>)
    ensures
        le_value(bytes) < byte_range(bytes.len()),
    decreases bytes.len(),
{
    if bytes.len() > 0 {
        values_are_in_range(bytes.skip(1));
        assert(bytes.skip(1).len() == bytes.len() - 1);
    }
}

/// Reads a number of up to eight bytes, the lowest first.
pub fn read_le(bytes: &[u8]) -> (value: u64)
    requires
        bytes@.len() <= 8,
    ensures
        value == le_value(bytes@),
{
    let mut value: u64 = 0;
    let mut index: usize = bytes.len();
    proof {
        byte_ranges();
        reveal_with_fuel(byte_range, 9);
        assert(bytes@.skip(index as int) =~= Seq::empty());
    }
    while index > 0
        invariant
            index <= bytes@.len() <= 8,
            value == le_value(bytes@.skip(index as int)),
        decreases index,
    {
        let ghost rest = bytes@.skip(index as int);
        let ghost longer = bytes@.skip(index - 1);
        proof {
            assert(longer.skip(1) =~= rest);
            assert(longer[0] == bytes@[index - 1]);
            values_are_in_range(longer);
            reveal_with_fuel(byte_range, 9);
            assert(byte_range(longer.len()) <= 0x1_0000_0000_0000_0000);
        }
        index = index - 1;
        value = value * 256 + bytes[index] as u64;
    }
    assert(bytes@.skip(0) =~= bytes@);
    value
}

/// Appends the lowest `count` bytes of a number, the lowest first.
pub fn push_le(output: &mut Vec<u8>, value: u64, count: usize)
    ensures
        final(output)@ == old(output)@ + le_bytes(value as nat, count as nat),
    decreases count,
{
    if count == 0 {
        assert(output@ + Seq::<u8>::empty() =~= output@);
        return;
    }
    let ghost before = output@;
    let low: u8 = (value % 256) as u8;
    output.push(low);
    push_le(output, value / 256, count - 1);
    assert(output@ =~= before + le_bytes(value as nat, count as nat));
}

/// A byte string behind its length, which takes eight bytes.
pub open spec fn measured(bytes: Seq<u8>) -> Seq<u8> {
    le_bytes(bytes.len(), 8) + bytes
}

/// Where two sequences begin with measured byte strings and are equal, the byte
/// strings are equal and so is what follows them.
pub proof fn measured_parts_agree(
    left: Seq<u8>,
    left_rest: Seq<u8>,
    right: Seq<u8>,
    right_rest: Seq<u8>,
)
    requires
        left.len() < byte_range(8),
        right.len() < byte_range(8),
        measured(left) + left_rest == measured(right) + right_rest,
    ensures
        left == right,
        left_rest == right_rest,
{
    numbers_round_trip(left.len(), 8);
    numbers_round_trip(right.len(), 8);
    let whole = measured(left) + left_rest;
    let other = measured(right) + right_rest;
    assert(whole.take(8) =~= le_bytes(left.len(), 8));
    assert(other.take(8) =~= le_bytes(right.len(), 8));
    assert(left.len() == right.len());
    assert(whole.subrange(8, 8 + left.len() as int) =~= left);
    assert(other.subrange(8, 8 + right.len() as int) =~= right);
    assert(whole.skip(8 + left.len() as int) =~= left_rest);
    assert(other.skip(8 + right.len() as int) =~= right_rest);
}

/// Where two sequences begin with parts of the same length and are equal, the
/// parts are equal and so is what follows them.
pub proof fn equal_parts_agree(
    left: Seq<u8>,
    left_rest: Seq<u8>,
    right: Seq<u8>,
    right_rest: Seq<u8>,
)
    requires
        left.len() == right.len(),
        left + left_rest == right + right_rest,
    ensures
        left == right,
        left_rest == right_rest,
{
    let whole = left + left_rest;
    let other = right + right_rest;
    assert(whole.take(left.len() as int) =~= left);
    assert(other.take(right.len() as int) =~= right);
    assert(whole.skip(left.len() as int) =~= left_rest);
    assert(other.skip(right.len() as int) =~= right_rest);
}


/// The lowest byte comes first: bytes stand for the first, and 256 times what the rest
/// stands for; and the first byte of a number is what is left of it below 256.
pub proof fn lowest_bytes_come_first(first: u8, rest: Seq<u8>, value: nat, count: nat)
    ensures
        le_value(seq![first] + rest) == first + 256 * le_value(rest),
        le_value(Seq::<u8>::empty()) == 0,
        le_bytes(value, count + 1)[0] == value % 256,
        le_bytes(value, count + 1).skip(1) == le_bytes(value / 256, count),
        le_bytes(value, 0).len() == 0,
        measured(rest).len() == 8 + rest.len(),
        measured(rest).skip(8) == rest,
        rest.len() < 0x1_0000_0000_0000_0000 ==> le_value(measured(rest).take(8)) == rest.len(),
{
    assert((seq![first] + rest).skip(1) =~= rest);
    assert(le_bytes(value, count + 1).skip(1) =~= le_bytes(value / 256, count));
    le_bytes_length(rest.len(), 8);
    assert(measured(rest).skip(8) =~= rest);
    assert(measured(rest).take(8) =~= le_bytes(rest.len(), 8));
    byte_ranges();
    if rest.len() < 0x1_0000_0000_0000_0000 {
        numbers_round_trip(rest.len(), 8);
    }
}

} // verus!
