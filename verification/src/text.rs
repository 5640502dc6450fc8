//! Text and byte-string helpers shared by the other modules.
use vstd::prelude::*;
use vstd::string::*;
use vstd::utf8::*;

verus! {

/// Whether two byte strings are equal.
pub fn bytes_eq(left: &[u8], right: &[u8]) -> (equal: bool)
    ensures
        equal == (left@ == right@),
{
    if left.len() != right.len() {
        return false;
    }
    let mut index: usize = 0;
    while index < left.len()
        invariant
            index <= left.len(),
            left.len() == right.len(),
            forall|i: int| 0 <= i < index ==> left@[i] == right@[i],
        decreases left.len() - index,
    {
        if left[index] != right[index] {
            return false;
        }
        index = index + 1;
    }
    assert(left@ =~= right@);
    true
}

/// Equal encodings come from equal character sequences.
pub proof fn encoding_is_injective(left: Seq<char>, right: Seq<char>)
    ensures
        encode_utf8(left) == encode_utf8(right) <==> left == right,
{
    encode_utf8_decode_utf8(left);
    encode_utf8_decode_utf8(right);
}

/// Whether two strings hold the same characters.
pub fn str_eq(left: &str, right: &str) -> (equal: bool)
    ensures
        equal == (left@ == right@),
{
    proof {
        encoding_is_injective(left@, right@);
    }
    bytes_eq(left.as_bytes(), right.as_bytes())
}

/// Whether `bytes` begins with `prefix`.
pub open spec fn starts_with(bytes: Seq<u8>, prefix: Seq<u8>) -> bool {
    prefix.len() <= bytes.len() && bytes.take(prefix.len() as int) == prefix
}

/// Whether `bytes` ends with `suffix`.
pub open spec fn ends_with(bytes: Seq<u8>, suffix: Seq<u8>) -> bool {
    suffix.len() <= bytes.len() && bytes.skip(bytes.len() - suffix.len()) == suffix
}

/// Whether `needle` stands in `bytes` at offset `at`.
pub open spec fn occurs_at(bytes: Seq<u8>, needle: Seq<u8>, at: int) -> bool {
    0 <= at && at + needle.len() <= bytes.len() && bytes.subrange(at, at + needle.len()) == needle
}

/// Whether `needle` stands anywhere in `bytes`.
pub open spec fn contains(bytes: Seq<u8>, needle: Seq<u8>) -> bool {
    exists|at: int| #[trigger] occurs_at(bytes, needle, at)
}

/// Compares the bytes at `at` with `needle`.
pub fn bytes_occur_at(bytes: &[u8], needle: &[u8], at: usize) -> (found: bool)
    ensures
        found == occurs_at(bytes@, needle@, at as int),
{
    if needle.len() > bytes.len() || at > bytes.len() - needle.len() {
        return false;
    }
    let mut index: usize = 0;
    while index < needle.len()
        invariant
            index <= needle.len(),
            at + needle.len() <= bytes.len(),
            forall|i: int| 0 <= i < index ==> bytes@[at + i] == needle@[i],
        decreases needle.len() - index,
    {
        if bytes[at + index] != needle[index] {
            proof {
                let part = bytes@.subrange(at as int, at + needle@.len());
                assert(part[index as int] == bytes@[at + index]);
            }
            return false;
        }
        index = index + 1;
    }
    assert(bytes@.subrange(at as int, at + needle@.len()) =~= needle@);
    true
}

/// Whether `bytes` begins with `prefix`.
pub fn bytes_start_with(bytes: &[u8], prefix: &[u8]) -> (found: bool)
    ensures
        found == starts_with(bytes@, prefix@),
{
    proof {
        if prefix@.len() <= bytes@.len() {
            assert(bytes@.take(prefix@.len() as int) =~= bytes@.subrange(0, prefix@.len() as int));
        }
    }
    bytes_occur_at(bytes, prefix, 0)
}

/// Whether `bytes` ends with `suffix`.
pub fn bytes_end_with(bytes: &[u8], suffix: &[u8]) -> (found: bool)
    ensures
        found == ends_with(bytes@, suffix@),
{
    if suffix.len() > bytes.len() {
        return false;
    }
    let at: usize = bytes.len() - suffix.len();
    proof {
        assert(bytes@.skip(bytes@.len() - suffix@.len()) =~= bytes@.subrange(
            at as int,
            at + suffix@.len(),
        ));
    }
    bytes_occur_at(bytes, suffix, at)
}

/// Whether `needle` stands anywhere in `bytes`.
pub fn bytes_contain(bytes: &[u8], needle: &[u8]) -> (found: bool)
    ensures
        found == contains(bytes@, needle@),
{
    if needle.len() > bytes.len() {
        return false;
    }
    let last: usize = bytes.len() - needle.len();
    let mut at: usize = 0;
    loop
        invariant
            at <= last,
            last == bytes.len() - needle.len(),
            forall|i: int| 0 <= i < at ==> !#[trigger] occurs_at(bytes@, needle@, i),
        decreases last - at,
    {
        if bytes_occur_at(bytes, needle, at) {
            return true;
        }
        if at == last {
            return false;
        }
        at = at + 1;
    }
}

/// The decimal digit `digit` as a character.
pub open spec fn digit_char(digit: nat) -> char {
    (48 + digit) as char
}

/// The decimal digits of `value`, most significant first, without padding.
pub open spec fn decimal(value: nat) -> Seq<char>
    decreases value,
{
    if value < 10 {
        seq![digit_char(value)]
    } else {
        decimal(value / 10).push(digit_char(value % 10))
    }
}

fn digit_text(digit: u64) -> (text: &'static str)
    requires
        digit < 10,
    ensures
        text@ == seq![digit_char(digit as nat)],
{
    proof {
        reveal_strlit("0");
        reveal_strlit("1");
        reveal_strlit("2");
        reveal_strlit("3");
        reveal_strlit("4");
        reveal_strlit("5");
        reveal_strlit("6");
        reveal_strlit("7");
        reveal_strlit("8");
        reveal_strlit("9");
    }
    let text: &'static str = match digit {
        0 => "0",
        1 => "1",
        2 => "2",
        3 => "3",
        4 => "4",
        5 => "5",
        6 => "6",
        7 => "7",
        8 => "8",
        _ => "9",
    };
    assert(text@ =~= seq![digit_char(digit as nat)]);
    text
}

/// Appends the decimal digits of `value` to `text`.
pub fn push_decimal(text: &mut String, value: u64)
    ensures
        final(text)@ == old(text)@ + decimal(value as nat),
    decreases value,
{
    if value >= 10 {
        push_decimal(text, value / 10);
    }
    text.append(digit_text(value % 10));
    proof {
        if value >= 10 {
            assert(text@ =~= old(text)@ + decimal(value as nat));
        } else {
            assert(text@ =~= old(text)@ + decimal(value as nat));
        }
    }
}

/// The decimal digits of `value`.
pub fn decimal_text(value: u64) -> (text: String)
    ensures
        text@ == decimal(value as nat),
{
    let mut text = String::new();
    push_decimal(&mut text, value);
    assert(text@ =~= decimal(value as nat));
    text
}

/// Appends one character.
///
/// Calls `String::push`, which appends the given character to the end.
#[verifier::external_body]
pub(crate) fn push_char(text: &mut String, character: char)
    ensures
        final(text)@ == old(text)@.push(character),
{
    text.push(character);
}

/// The characters of a string.
pub fn chars_of(text: &str) -> (characters: Vec<char>)
    ensures
        characters@ == text@,
{
    let mut characters: Vec<char> = Vec::new();
    for character in iter: text.chars()
        invariant
            iter.seq() == text@,
            characters@ == text@.take(iter.index() as int),
    {
        characters.push(character);
        proof {
            assert(text@.take(iter.index() as int).push(character) =~= text@.take(
                iter.index() + 1,
            ));
        }
    }
    assert(text@.take(text@.len() as int) =~= text@);
    characters
}

/// The string of the given characters.
pub fn string_of(characters: &[char]) -> (text: String)
    ensures
        text@ == characters@,
{
    let mut text = String::new();
    let mut index: usize = 0;
    while index < characters.len()
        invariant
            index <= characters.len(),
            text@ == characters@.take(index as int),
        decreases characters.len() - index,
    {
        push_char(&mut text, characters[index]);
        index = index + 1;
        assert(characters@.take(index - 1).push(characters@[index - 1]) =~= characters@.take(
            index as int,
        ));
    }
    assert(characters@.take(characters@.len() as int) =~= characters@);
    text
}

/// An ASCII capital becomes the small letter; other characters stay.
pub open spec fn lower(character: char) -> char {
    if 65 <= character as u32 <= 90 {
        (character as u32 + 32) as char
    } else {
        character
    }
}

pub open spec fn lowercase(text: Seq<char>) -> Seq<char> {
    text.map_values(|character: char| lower(character))
}

fn lower_char(character: char) -> (lowered: char)
    ensures
        lowered == lower(character),
{
    let code: u32 = character as u32;
    if code < 65 || code > 90 {
        return character;
    }
    (code as u8 + 32) as char
}

/// The string with its ASCII capitals made small.
pub fn ascii_lowercase(text: &str) -> (lowered: String)
    ensures
        lowered@ == lowercase(text@),
{
    let characters = chars_of(text);
    let mut lowered = String::new();
    let mut index: usize = 0;
    while index < characters.len()
        invariant
            index <= characters.len(),
            lowered@ == lowercase(characters@.take(index as int)),
        decreases characters.len() - index,
    {
        push_char(&mut lowered, lower_char(characters[index]));
        index = index + 1;
        assert(lowered@ =~= lowercase(characters@.take(index as int)));
    }
    assert(characters@.take(characters@.len() as int) =~= characters@);
    lowered
}

/// The characters with the Unicode property White_Space.
pub open spec fn is_white(character: char) -> bool {
    let code = character as u32;
    ||| 9 <= code <= 13
    ||| code == 0x20
    ||| code == 0x85
    ||| code == 0xa0
    ||| code == 0x1680
    ||| 0x2000 <= code <= 0x200a
    ||| code == 0x2028
    ||| code == 0x2029
    ||| code == 0x202f
    ||| code == 0x205f
    ||| code == 0x3000
}

pub fn white(character: char) -> (found: bool)
    ensures
        found == is_white(character),
{
    let code: u32 = character as u32;
    (9 <= code && code <= 13) || code == 0x20 || code == 0x85 || code == 0xa0 || code == 0x1680 || (
    0x2000 <= code && code <= 0x200a) || code == 0x2028 || code == 0x2029 || code == 0x202f || code
        == 0x205f || code == 0x3000
}

/// `text` without the white space at its start.
pub open spec fn trim_start(text: Seq<char>) -> Seq<char>
    decreases text.len(),
{
    if text.len() > 0 && is_white(text[0]) {
        trim_start(text.skip(1))
    } else {
        text
    }
}

/// `text` without the white space at its end.
pub open spec fn trim_end(text: Seq<char>) -> Seq<char>
    decreases text.len(),
{
    if text.len() > 0 && is_white(text.last()) {
        trim_end(text.drop_last())
    } else {
        text
    }
}

/// `text` without the white space at either end.
pub open spec fn trim(text: Seq<char>) -> Seq<char> {
    trim_end(trim_start(text))
}

/// The string without the white space at either end.
pub fn trimmed(text: &str) -> (result: String)
    ensures
        result@ == trim(text@),
{
    let characters = chars_of(text);
    let mut start: usize = 0;
    assert(characters@.skip(0) =~= characters@);
    while start < characters.len() && white(characters[start])
        invariant
            start <= characters.len(),
            trim_start(characters@) == trim_start(characters@.skip(start as int)),
        decreases characters.len() - start,
    {
        assert(characters@.skip(start as int).skip(1) =~= characters@.skip(start + 1));
        start = start + 1;
    }
    let ghost rest = characters@.skip(start as int);
    assert(trim_start(characters@) == rest);
    let mut end: usize = characters.len();
    assert(characters@.subrange(start as int, end as int) =~= rest);
    while end > start && white(characters[end - 1])
        invariant
            start <= end <= characters.len(),
            trim_end(rest) == trim_end(characters@.subrange(start as int, end as int)),
        decreases end,
    {
        assert(characters@.subrange(start as int, end as int).drop_last() =~= characters@.subrange(
            start as int,
            end - 1,
        ));
        end = end - 1;
    }
    string_of(vstd::slice::slice_subrange(characters.as_slice(), start, end))
}

/// Decodes bytes as UTF-8.
///
/// Calls `core::str::from_utf8` and copies what it returns: there is a result
/// exactly when the bytes are well-formed UTF-8, and its encoding is the bytes.
#[verifier::external_body]
pub(crate) fn utf8_text(bytes: &[u8]) -> (text: Option<String>)
    ensures
        text is Some <==> valid_utf8(bytes@),
        text matches Some(decoded) ==> decoded@ == decode_utf8(bytes@),
{
    core::str::from_utf8(bytes).ok().map(|text| text.to_owned())
}

/// What a byte string reads as where it need not be UTF-8 throughout.
pub uninterp spec fn lossy_text(bytes: Seq<u8>) -> Seq<char>;

/// Decodes bytes as UTF-8, with replacement characters where they are not.
///
/// Calls `String::from_utf8_lossy`. The result depends on the bytes alone, and
/// bytes that are well-formed UTF-8 are decoded as they are. How ill-formed
/// parts are replaced is not stated.
#[verifier::external_body]
pub(crate) fn decode_lossy(bytes: &[u8]) -> (text: String)
    ensures
        text@ == lossy_text(bytes@),
        valid_utf8(bytes@) ==> text@ == decode_utf8(bytes@),
{
    String::from_utf8_lossy(bytes).into_owned()
}


/// The number that a row of decimal digits stands for.
pub open spec fn number_of(digits: Seq<char>) -> nat
    decreases digits.len(),
{
    if digits.len() == 0 {
        0
    } else {
        (10 * number_of(digits.drop_last()) + (digits.last() as u32 - 48)) as nat
    }
}

/// A number is written in decimal digits that stand for it, without a needless zero
/// before them.
pub proof fn decimals_stand_for_their_number(value: nat)
    ensures
        number_of(decimal(value)) == value,
        decimal(value).len() > 0,
        forall|i: int|
            0 <= i < decimal(value).len() ==> '0' <= #[trigger] decimal(value)[i] <= '9',
        value > 0 ==> decimal(value)[0] != '0',
        value == 0 ==> decimal(value).len() == 1,
    decreases value,
{
    let text = decimal(value);
    if value < 10 {
        assert(text.drop_last() =~= Seq::<char>::empty());
        assert(text.last() as u32 == 48 + value);
        assert(number_of(text.drop_last()) == 0);
    } else {
        let before = decimal(value / 10);
        decimals_stand_for_their_number(value / 10);
        assert(text.drop_last() =~= before);
        assert(text.last() as u32 == 48 + value % 10);
        assert(text[0] == before[0]);
    }
}

/// Trimming takes white space off both ends and nothing else: what is left stands in the
/// text, all before and behind it is white, and it neither begins nor ends with white.
pub proof fn trimming_takes_white_off_the_ends(text: Seq<char>) -> (place: (int, int))
    ensures
        0 <= place.0 <= place.1 <= text.len(),
        trim(text) == text.subrange(place.0, place.1),
        forall|i: int| 0 <= i < place.0 ==> is_white(#[trigger] text[i]),
        forall|i: int| place.1 <= i < text.len() ==> is_white(#[trigger] text[i]),
        place.0 < place.1 ==> !is_white(text[place.0]) && !is_white(text[place.1 - 1]),
{
    let from = starts_are_trimmed(text);
    let rest = trim_start(text);
    let to = ends_are_trimmed(rest);
    assert(trim(text) =~= text.subrange(from, from + to));
    assert forall|i: int| from + to <= i < text.len() implies is_white(#[trigger] text[i]) by {
        assert(rest[i - from] == text[i]);
    }
    if 0 < to {
        assert(rest[0] == text[from]);
        assert(rest[to - 1] == text[from + to - 1]);
    }
    (from, from + to)
}

proof fn starts_are_trimmed(text: Seq<char>) -> (from: int)
    ensures
        0 <= from <= text.len(),
        trim_start(text) == text.skip(from),
        forall|i: int| 0 <= i < from ==> is_white(#[trigger] text[i]),
        from < text.len() ==> !is_white(text[from]),
    decreases text.len(),
{
    if text.len() > 0 && is_white(text[0]) {
        let rest = text.skip(1);
        let from = starts_are_trimmed(rest);
        assert(rest.skip(from) =~= text.skip(from + 1));
        assert forall|i: int| 0 <= i < from + 1 implies is_white(#[trigger] text[i]) by {
            if i > 0 {
                assert(rest[i - 1] == text[i]);
            }
        }
        from + 1
    } else {
        assert(text.skip(0) =~= text);
        0
    }
}

proof fn ends_are_trimmed(text: Seq<char>) -> (to: int)
    ensures
        0 <= to <= text.len(),
        trim_end(text) == text.take(to),
        forall|i: int| to <= i < text.len() ==> is_white(#[trigger] text[i]),
        to > 0 ==> !is_white(text[to - 1]),
    decreases text.len(),
{
    if text.len() > 0 && is_white(text.last()) {
        let rest = text.drop_last();
        let to = ends_are_trimmed(rest);
        assert(rest.take(to) =~= text.take(to));
        assert forall|i: int| to <= i < text.len() implies is_white(#[trigger] text[i]) by {
            if i < text.len() - 1 {
                assert(rest[i] == text[i]);
            }
        }
        to
    } else {
        assert(text.take(text.len() as int) =~= text);
        text.len() as int
    }
}

/// Of the characters below 128, white are the space and those from tab to carriage
/// return.
pub proof fn ascii_white_is_known(character: char)
    requires
        (character as u32) < 128,
    ensures
        is_white(character) <==> character == ' ' || '\t' <= character <= '\r',
{
}

/// In lower case a text has the same length, each capital letter of the alphabet turned
/// into its small letter, and everything else as it was.
pub proof fn lower_case_changes_only_letters(text: Seq<char>, i: int)
    requires
        0 <= i < text.len(),
    ensures
        lowercase(text).len() == text.len(),
        'A' as u32 <= text[i] as u32 <= 'Z' as u32 ==> lowercase(text)[i] as u32 - 'a' as u32
            == text[i] as u32 - 'A' as u32,
        (text[i] as u32) < 'A' as u32 || text[i] as u32 > 'Z' as u32 ==> lowercase(text)[i]
            == text[i],
        lowercase(lowercase(text)) == lowercase(text),
{
    assert(lowercase(text)[i] == lower(text[i]));
    assert(lowercase(lowercase(text)) =~= lowercase(text));
}

/// One row of bytes begins, ends, or goes on somewhere with another exactly where the
/// bytes agree one by one.
pub proof fn parts_agree_byte_by_byte(bytes: Seq<u8>, part: Seq<u8>, at: int)
    ensures
        starts_with(bytes, part) <==> part.len() <= bytes.len() && forall|i: int|
            0 <= i < part.len() ==> bytes[i] == #[trigger] part[i],
        ends_with(bytes, part) <==> part.len() <= bytes.len() && forall|i: int|
            0 <= i < part.len() ==> bytes[bytes.len() - part.len() + i] == #[trigger] part[i],
        occurs_at(bytes, part, at) <==> 0 <= at && at + part.len() <= bytes.len() && forall|i: int|
            0 <= i < part.len() ==> bytes[at + i] == #[trigger] part[i],
{
    if starts_with(bytes, part) {
        assert forall|i: int| 0 <= i < part.len() implies bytes[i] == #[trigger] part[i] by {
            assert(bytes.take(part.len() as int)[i] == part[i]);
        }
    }
    if part.len() <= bytes.len() && (forall|i: int|
        0 <= i < part.len() ==> bytes[i] == #[trigger] part[i]) {
        assert(bytes.take(part.len() as int) =~= part);
    }
    let late = bytes.len() - part.len();
    if ends_with(bytes, part) {
        assert forall|i: int| 0 <= i < part.len() implies bytes[late + i] == #[trigger] part[i] by {
            assert(bytes.skip(late)[i] == part[i]);
        }
    }
    if part.len() <= bytes.len() && (forall|i: int|
        0 <= i < part.len() ==> bytes[late + i] == #[trigger] part[i]) {
        assert(bytes.skip(late) =~= part);
    }
    if occurs_at(bytes, part, at) {
        assert forall|i: int| 0 <= i < part.len() implies bytes[at + i] == #[trigger] part[i] by {
            assert(bytes.subrange(at, at + part.len())[i] == part[i]);
        }
    }
    if 0 <= at && at + part.len() <= bytes.len() && (forall|i: int|
        0 <= i < part.len() ==> bytes[at + i] == #[trigger] part[i]) {
        assert(bytes.subrange(at, at + part.len()) =~= part);
    }
}

} // verus!
