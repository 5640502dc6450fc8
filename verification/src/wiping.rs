//! Overwriting what must not stay in memory.
use vstd::prelude::*;

verus! {

/// Overwrites bytes and leaves nothing of them.
///
/// Calls `zeroize::Zeroize::zeroize` on a vector, which sets every byte to zero
/// and then empties the vector, without unwinding. That the memory is overwritten
/// is not stated.
#[verifier::external_body]
pub(crate) fn wipe_bytes(bytes: &mut Vec<u8>)
    ensures
        final(bytes)@ == Seq::<u8>::empty(),
    opens_invariants none
    no_unwind
{
    zeroize::Zeroize::zeroize(bytes);
}

/// Overwrites bytes that may be missing and leaves nothing of them.
///
/// Calls `zeroize::Zeroize::zeroize` on an option, which does so on the vector in
/// it and then leaves `None`, without unwinding. That the memory is overwritten is
/// not stated.
#[verifier::external_body]
pub(crate) fn wipe_optional_bytes(bytes: &mut Option<Vec<u8>>)
    ensures
        *final(bytes) is None,
    opens_invariants none
    no_unwind
{
    zeroize::Zeroize::zeroize(bytes);
}

/// Overwrites bytes where they are.
///
/// Calls `zeroize::Zeroize::zeroize` on a slice, which sets every byte to zero.
/// It does not unwind. That the write is not left out is not stated.
#[verifier::external_body]
pub(crate) fn wipe_bytes_in_place(bytes: &mut Vec<u8>)
    ensures
        final(bytes)@.len() == old(bytes)@.len(),
        forall|i: int| 0 <= i < final(bytes)@.len() ==> #[trigger] final(bytes)@[i] == 0,
    opens_invariants none
    no_unwind
{
    zeroize::Zeroize::zeroize(bytes.as_mut_slice());
}

/// Overwrites numbers and leaves nothing of them.
///
/// Calls `zeroize::Zeroize::zeroize` on a vector, which sets every number to zero
/// and then empties the vector, without unwinding. That the memory is overwritten
/// is not stated.
#[verifier::external_body]
pub(crate) fn wipe_numbers(numbers: &mut Vec<u32>)
    ensures
        final(numbers)@ == Seq::<u32>::empty(),
    opens_invariants none
    no_unwind
{
    zeroize::Zeroize::zeroize(numbers);
}

/// Overwrites numbers where they are.
///
/// Calls `zeroize::Zeroize::zeroize` on a slice, which sets every number to zero.
/// It does not unwind. That the write is not left out is not stated.
#[verifier::external_body]
pub(crate) fn wipe_numbers_in_place(numbers: &mut Vec<u32>)
    ensures
        final(numbers)@.len() == old(numbers)@.len(),
        forall|i: int| 0 <= i < final(numbers)@.len() ==> #[trigger] final(numbers)@[i] == 0,
    opens_invariants none
    no_unwind
{
    zeroize::Zeroize::zeroize(numbers.as_mut_slice());
}

/// Overwrites the corners of a box.
///
/// Calls `zeroize::Zeroize::zeroize` on an array, which sets every number to zero.
/// It does not unwind. That the write is not left out is not stated.
#[verifier::external_body]
pub(crate) fn wipe_corners(corners: &mut [i32; 4])
    ensures
        final(corners)@ == seq![0i32, 0i32, 0i32, 0i32],
    opens_invariants none
    no_unwind
{
    zeroize::Zeroize::zeroize(corners);
}

/// Overwrites a number.
///
/// Calls `zeroize::Zeroize::zeroize` on it, which sets it to zero without unwinding.
/// That the write is not left out is not stated.
#[verifier::external_body]
pub(crate) fn wipe_number(number: &mut u32)
    ensures
        *final(number) == 0,
    opens_invariants none
    no_unwind
{
    zeroize::Zeroize::zeroize(number);
}

/// Overwrites a number that may be missing.
///
/// Calls `zeroize::Zeroize::zeroize` on an option, which does so on the number in
/// it and then leaves `None`, without unwinding. That the memory is overwritten is
/// not stated.
#[verifier::external_body]
pub(crate) fn wipe_optional_number(number: &mut Option<u32>)
    ensures
        *final(number) is None,
    opens_invariants none
    no_unwind
{
    zeroize::Zeroize::zeroize(number);
}

/// Overwrites an answer that may be missing.
///
/// Calls `zeroize::Zeroize::zeroize` on an option, which does so on the answer in
/// it and then leaves `None`, without unwinding. That the memory is overwritten is
/// not stated.
#[verifier::external_body]
pub(crate) fn wipe_optional_answer(answer: &mut Option<bool>)
    ensures
        *final(answer) is None,
    opens_invariants none
    no_unwind
{
    zeroize::Zeroize::zeroize(answer);
}

/// Overwrites a text and leaves nothing of it.
///
/// Calls `zeroize::Zeroize::zeroize` on a string, which sets every byte to zero
/// and then empties the string, without unwinding. That the memory is overwritten
/// is not stated.
#[verifier::external_body]
pub(crate) fn wipe_text(text: &mut String)
    ensures
        final(text)@ == Seq::<char>::empty(),
    opens_invariants none
    no_unwind
{
    zeroize::Zeroize::zeroize(text);
}

/// Overwrites texts and leaves nothing of them.
///
/// Calls `zeroize::Zeroize::zeroize` on a vector of strings, which does so on
/// every string and then empties the vector, without unwinding. That the memory is
/// overwritten is not stated.
#[verifier::external_body]
pub(crate) fn wipe_texts(texts: &mut Vec<String>)
    ensures
        final(texts)@ == Seq::<String>::empty(),
    opens_invariants none
    no_unwind
{
    zeroize::Zeroize::zeroize(texts);
}

/// Takes bytes out of where they are kept.
pub(crate) fn take_bytes(bytes: &mut Vec<u8>) -> (taken: Vec<u8>)
    ensures
        taken == *old(bytes),
        final(bytes)@ == Seq::<u8>::empty(),
{
    let mut taken: Vec<u8> = Vec::new();
    std::mem::swap(&mut taken, bytes);
    taken
}

/// Takes a text out of where it is kept.
pub(crate) fn take_text(text: &mut String) -> (taken: String)
    ensures
        taken == *old(text),
        final(text)@ == Seq::<char>::empty(),
{
    let mut taken: String = String::new();
    std::mem::swap(&mut taken, text);
    taken
}

} // verus!
