//! The command line of the precision experiment.
use crate::float_bits::{
    at_most32, at_most64, finite32, finite64, is_at_most32, is_at_most64, is_finite32, is_finite64,
    is_less64, less64,
};
use crate::paths::{
    contained_path, is_below, is_contained_path, is_same_path, lies_below, same_path,
};
use crate::text::{bytes_eq, bytes_start_with, chars_of, starts_with, utf8_text};
use vstd::prelude::*;
use vstd::string::*;
use vstd::utf8::*;

verus! {

pub const DEFAULT_PAIRS: u64 = 2;

pub const MAX_PAIRS: u64 = 16;

pub const DEFAULT_WORKER_DEADLINE_SECS: u64 = 600;

pub const MAX_WORKER_DEADLINE_SECS: u64 = 3600;

/// The options that the command line may hold.
#[derive(Clone, Copy, Debug, PartialEq, Eq, Structural)]
pub enum FlagName {
    ExperimentRoot,
    Fixtures,
    Manifest,
    DetectorModel,
    RecognizerModel,
    ModelFile,
    ResultFile,
    Diagnostics,
    Threshold,
    HsaOverride,
    ConfiguredGpuTarget,
    Pairs,
    WorkerDeadlineSecs,
    MinFaceIou,
    MaxDetectorScoreDrift,
    MaxLandmarkRmse,
    MinEmbeddingCosine,
    MaxEnrolledScoreDrift,
    AllowMixedPlacement,
}

impl FlagName {
    pub open spec fn text(self) -> Seq<char> {
        match self {
            FlagName::ExperimentRoot => "experiment-root"@,
            FlagName::Fixtures => "fixtures"@,
            FlagName::Manifest => "manifest"@,
            FlagName::DetectorModel => "detector-model"@,
            FlagName::RecognizerModel => "recognizer-model"@,
            FlagName::ModelFile => "model-file"@,
            FlagName::ResultFile => "result"@,
            FlagName::Diagnostics => "diagnostics"@,
            FlagName::Threshold => "threshold"@,
            FlagName::HsaOverride => "hsa-override"@,
            FlagName::ConfiguredGpuTarget => "configured-gpu-target"@,
            FlagName::Pairs => "pairs"@,
            FlagName::WorkerDeadlineSecs => "worker-deadline-secs"@,
            FlagName::MinFaceIou => "min-face-iou"@,
            FlagName::MaxDetectorScoreDrift => "max-detector-score-drift"@,
            FlagName::MaxLandmarkRmse => "max-landmark-rmse"@,
            FlagName::MinEmbeddingCosine => "min-embedding-cosine"@,
            FlagName::MaxEnrolledScoreDrift => "max-enrolled-score-drift"@,
            FlagName::AllowMixedPlacement => "allow-mixed-placement"@,
        }
    }

    /// The option's name, without the two dashes before it.
    pub fn name(self) -> (name: &'static str)
        ensures
            name@ == self.text(),
    {
        match self {
            FlagName::ExperimentRoot => "experiment-root",
            FlagName::Fixtures => "fixtures",
            FlagName::Manifest => "manifest",
            FlagName::DetectorModel => "detector-model",
            FlagName::RecognizerModel => "recognizer-model",
            FlagName::ModelFile => "model-file",
            FlagName::ResultFile => "result",
            FlagName::Diagnostics => "diagnostics",
            FlagName::Threshold => "threshold",
            FlagName::HsaOverride => "hsa-override",
            FlagName::ConfiguredGpuTarget => "configured-gpu-target",
            FlagName::Pairs => "pairs",
            FlagName::WorkerDeadlineSecs => "worker-deadline-secs",
            FlagName::MinFaceIou => "min-face-iou",
            FlagName::MaxDetectorScoreDrift => "max-detector-score-drift",
            FlagName::MaxLandmarkRmse => "max-landmark-rmse",
            FlagName::MinEmbeddingCosine => "min-embedding-cosine",
            FlagName::MaxEnrolledScoreDrift => "max-enrolled-score-drift",
            FlagName::AllowMixedPlacement => "allow-mixed-placement",
        }
    }
}

/// The option of a name, if there is one.
pub open spec fn flag_named(name: Seq<u8>) -> Option<FlagName> {
    if name == encode_utf8("experiment-root"@) {
        Some(FlagName::ExperimentRoot)
    } else if name == encode_utf8("fixtures"@) {
        Some(FlagName::Fixtures)
    } else if name == encode_utf8("manifest"@) {
        Some(FlagName::Manifest)
    } else if name == encode_utf8("detector-model"@) {
        Some(FlagName::DetectorModel)
    } else if name == encode_utf8("recognizer-model"@) {
        Some(FlagName::RecognizerModel)
    } else if name == encode_utf8("model-file"@) {
        Some(FlagName::ModelFile)
    } else if name == encode_utf8("result"@) {
        Some(FlagName::ResultFile)
    } else if name == encode_utf8("diagnostics"@) {
        Some(FlagName::Diagnostics)
    } else if name == encode_utf8("threshold"@) {
        Some(FlagName::Threshold)
    } else if name == encode_utf8("hsa-override"@) {
        Some(FlagName::HsaOverride)
    } else if name == encode_utf8("configured-gpu-target"@) {
        Some(FlagName::ConfiguredGpuTarget)
    } else if name == encode_utf8("pairs"@) {
        Some(FlagName::Pairs)
    } else if name == encode_utf8("worker-deadline-secs"@) {
        Some(FlagName::WorkerDeadlineSecs)
    } else if name == encode_utf8("min-face-iou"@) {
        Some(FlagName::MinFaceIou)
    } else if name == encode_utf8("max-detector-score-drift"@) {
        Some(FlagName::MaxDetectorScoreDrift)
    } else if name == encode_utf8("max-landmark-rmse"@) {
        Some(FlagName::MaxLandmarkRmse)
    } else if name == encode_utf8("min-embedding-cosine"@) {
        Some(FlagName::MinEmbeddingCosine)
    } else if name == encode_utf8("max-enrolled-score-drift"@) {
        Some(FlagName::MaxEnrolledScoreDrift)
    } else if name == encode_utf8("allow-mixed-placement"@) {
        Some(FlagName::AllowMixedPlacement)
    } else {
        None
    }
}

fn find_flag(name: &[u8]) -> (found: Option<FlagName>)
    ensures
        found == flag_named(name@),
{
    if bytes_eq(name, "experiment-root".as_bytes()) {
        Some(FlagName::ExperimentRoot)
    } else if bytes_eq(name, "fixtures".as_bytes()) {
        Some(FlagName::Fixtures)
    } else if bytes_eq(name, "manifest".as_bytes()) {
        Some(FlagName::Manifest)
    } else if bytes_eq(name, "detector-model".as_bytes()) {
        Some(FlagName::DetectorModel)
    } else if bytes_eq(name, "recognizer-model".as_bytes()) {
        Some(FlagName::RecognizerModel)
    } else if bytes_eq(name, "model-file".as_bytes()) {
        Some(FlagName::ModelFile)
    } else if bytes_eq(name, "result".as_bytes()) {
        Some(FlagName::ResultFile)
    } else if bytes_eq(name, "diagnostics".as_bytes()) {
        Some(FlagName::Diagnostics)
    } else if bytes_eq(name, "threshold".as_bytes()) {
        Some(FlagName::Threshold)
    } else if bytes_eq(name, "hsa-override".as_bytes()) {
        Some(FlagName::HsaOverride)
    } else if bytes_eq(name, "configured-gpu-target".as_bytes()) {
        Some(FlagName::ConfiguredGpuTarget)
    } else if bytes_eq(name, "pairs".as_bytes()) {
        Some(FlagName::Pairs)
    } else if bytes_eq(name, "worker-deadline-secs".as_bytes()) {
        Some(FlagName::WorkerDeadlineSecs)
    } else if bytes_eq(name, "min-face-iou".as_bytes()) {
        Some(FlagName::MinFaceIou)
    } else if bytes_eq(name, "max-detector-score-drift".as_bytes()) {
        Some(FlagName::MaxDetectorScoreDrift)
    } else if bytes_eq(name, "max-landmark-rmse".as_bytes()) {
        Some(FlagName::MaxLandmarkRmse)
    } else if bytes_eq(name, "min-embedding-cosine".as_bytes()) {
        Some(FlagName::MinEmbeddingCosine)
    } else if bytes_eq(name, "max-enrolled-score-drift".as_bytes()) {
        Some(FlagName::MaxEnrolledScoreDrift)
    } else if bytes_eq(name, "allow-mixed-placement".as_bytes()) {
        Some(FlagName::AllowMixedPlacement)
    } else {
        None
    }
}

/// Why a command line was rejected.
#[derive(Clone, Copy, Debug, PartialEq, Eq, Structural)]
pub enum ArgsError {
    NonUtf8Argument,
    InvalidSyntax,
    UnknownOrDuplicate,
    MissingValue,
    /// The value is no number of the kind that the option takes.
    InvalidNumber(FlagName),
    Missing(FlagName),
    NumericConfiguration,
    Limits,
    HsaOverride,
    GpuTarget,
}

/// One option as it was given: only a switch has no value.
#[derive(Debug)]
pub struct FlagValue {
    pub name: FlagName,
    pub value: Option<Vec<u8>>,
}

/// The mathematical form of a given option.
pub struct Given {
    pub name: FlagName,
    pub value: Option<Seq<u8>>,
}

pub open spec fn bytes_view(value: Option<Vec<u8>>) -> Option<Seq<u8>> {
    match value {
        Some(bytes) => Some(bytes@),
        None => None,
    }
}

pub open spec fn given(entries: Seq<FlagValue>) -> Seq<Given> {
    entries.map_values(|entry: FlagValue| Given { name: entry.name, value: bytes_view(entry.value) })
}

/// Whether an option is among those given.
pub open spec fn is_given(entries: Seq<Given>, name: FlagName) -> bool {
    exists|i: int| 0 <= i < entries.len() && #[trigger] entries[i].name == name
}

/// What a word of the command line names: it begins with two dashes and the
/// rest is an option's name.
pub open spec fn named_by(word: Seq<u8>) -> Result<FlagName, ArgsError> {
    if !valid_utf8(word) {
        Err(ArgsError::NonUtf8Argument)
    } else if !starts_with(word, encode_utf8("--"@)) {
        Err(ArgsError::InvalidSyntax)
    } else {
        match flag_named(word.skip(2)) {
            Some(name) => Ok(name),
            None => Err(ArgsError::UnknownOrDuplicate),
        }
    }
}

/// Reads the words from `at` on. Each option may come once; all but the switch
/// take the next word, whatever it is, as their value.
pub open spec fn read_flags(words: Seq<Seq<u8>>, at: int, so_far: Seq<Given>) -> Result<
    Seq<Given>,
    ArgsError,
>
    decreases words.len() - at,
{
    if at < 0 || at >= words.len() {
        Ok(so_far)
    } else {
        match named_by(words[at]) {
            Err(error) => Err(error),
            Ok(name) => if is_given(so_far, name) {
                Err(ArgsError::UnknownOrDuplicate)
            } else if name == FlagName::AllowMixedPlacement {
                read_flags(words, at + 1, so_far.push(Given { name, value: None }))
            } else if at + 1 >= words.len() {
                Err(ArgsError::MissingValue)
            } else {
                read_flags(words, at + 2, so_far.push(Given { name, value: Some(words[at + 1]) }))
            },
        }
    }
}

/// All options are different, and exactly the switch has no value.
pub open spec fn well_given(entries: Seq<Given>) -> bool {
    &&& forall|i: int, j: int|
        0 <= i < j < entries.len() ==> #[trigger] entries[i].name != #[trigger] entries[j].name
    &&& forall|i: int|
        0 <= i < entries.len() ==> ((#[trigger] entries[i]).value is None <==> entries[i].name
            == FlagName::AllowMixedPlacement)
}

/// What is read from any command line is well given.
pub proof fn flags_are_given_once(words: Seq<Seq<u8>>, at: int, so_far: Seq<Given>)
    requires
        well_given(so_far),
    ensures
        read_flags(words, at, so_far) matches Ok(entries) ==> well_given(entries),
    decreases words.len() - at,
{
    if 0 <= at < words.len() {
        match named_by(words[at]) {
            Ok(name) => if !is_given(so_far, name) {
                if name == FlagName::AllowMixedPlacement {
                    flags_are_given_once(words, at + 1, so_far.push(Given { name, value: None }));
                } else if at + 1 < words.len() {
                    flags_are_given_once(
                        words,
                        at + 2,
                        so_far.push(Given { name, value: Some(words[at + 1]) }),
                    );
                }
            },
            Err(_) => {},
        }
    }
}

fn name_of(word: &[u8]) -> (name: Result<FlagName, ArgsError>)
    ensures
        name == named_by(word@),
{
    if utf8_text(word).is_none() {
        return Err(ArgsError::NonUtf8Argument);
    }
    if !bytes_start_with(word, "--".as_bytes()) {
        return Err(ArgsError::InvalidSyntax);
    }
    proof {
        reveal_strlit("--");
        is_ascii_chars_encode_utf8("--"@);
        assert(encode_utf8("--"@).len() == 2);
    }
    let rest = vstd::slice::slice_subrange(word, 2, word.len());
    assert(rest@ =~= word@.skip(2));
    match find_flag(rest) {
        Some(name) => Ok(name),
        None => Err(ArgsError::UnknownOrDuplicate),
    }
}

fn already_given(entries: &Vec<FlagValue>, name: FlagName) -> (found: bool)
    ensures
        found == is_given(given(entries@), name),
{
    let mut index: usize = 0;
    while index < entries.len()
        invariant
            index <= entries@.len(),
            forall|i: int| 0 <= i < index ==> #[trigger] given(entries@)[i].name != name,
        decreases entries.len() - index,
    {
        if entries[index].name == name {
            assert(given(entries@)[index as int].name == name);
            return true;
        }
        index = index + 1;
    }
    false
}

/// The options that a command line, without the program's name, gives.
pub fn parse_flags(words: &Vec<Vec<u8>>) -> (entries: Result<Vec<FlagValue>, ArgsError>)
    ensures
        match entries {
            Ok(flags) => read_flags(crate::paths::views(words@), 0, Seq::empty()) == Ok::<
                Seq<Given>,
                ArgsError,
            >(given(flags@)) && well_given(given(flags@)),
            Err(error) => read_flags(crate::paths::views(words@), 0, Seq::empty()) == Err::<
                Seq<Given>,
                ArgsError,
            >(error),
        },
{
    let ghost all = crate::paths::views(words@);
    let mut entries: Vec<FlagValue> = Vec::new();
    let mut index: usize = 0;
    assert(given(entries@) =~= Seq::empty());
    while index < words.len()
        invariant
            index <= words@.len(),
            all == crate::paths::views(words@),
            read_flags(all, 0, Seq::empty()) == read_flags(all, index as int, given(entries@)),
        decreases words.len() - index,
    {
        assert(all[index as int] == words@[index as int]@);
        let name: FlagName = match name_of(words[index].as_slice()) {
            Ok(name) => name,
            Err(error) => {
                return Err(error);
            },
        };
        if already_given(&entries, name) {
            return Err(ArgsError::UnknownOrDuplicate);
        }
        let ghost before = given(entries@);
        if name == FlagName::AllowMixedPlacement {
            entries.push(FlagValue { name, value: None });
            assert(given(entries@) =~= before.push(Given { name, value: None }));
            index = index + 1;
        } else {
            if index + 1 >= words.len() {
                return Err(ArgsError::MissingValue);
            }
            let mut value: Vec<u8> = Vec::new();
            value.extend_from_slice(words[index + 1].as_slice());
            assert(value@ =~= words@[index + 1]@);
            assert(all[index + 1] == words@[index + 1]@);
            entries.push(FlagValue { name, value: Some(value) });
            assert(given(entries@) =~= before.push(Given { name, value: Some(all[index + 1]) }));
            index = index + 2;
        }
    }
    proof {
        flags_are_given_once(all, 0, Seq::empty());
    }
    Ok(entries)
}

/// The value that an option was given: the outer `None` where it was not given,
/// the inner one where it has no value.
pub open spec fn value_of(entries: Seq<Given>, name: FlagName) -> Option<Option<Seq<u8>>>
    decreases entries.len(),
{
    if entries.len() == 0 {
        None
    } else if entries.last().name == name {
        Some(entries.last().value)
    } else {
        value_of(entries.drop_last(), name)
    }
}

/// The bytes that an option was given.
pub open spec fn bytes_of(entries: Seq<Given>, name: FlagName) -> Option<Seq<u8>> {
    match value_of(entries, name) {
        Some(Some(bytes)) => Some(bytes),
        _ => None,
    }
}

/// The value of an option: its bytes, if it was given with any.
pub fn flag_bytes(entries: &Vec<FlagValue>, name: FlagName) -> (value: Option<&[u8]>)
    ensures
        match value {
            Some(bytes) => bytes_of(given(entries@), name) == Some(bytes@),
            None => bytes_of(given(entries@), name) is None,
        },
{
    let ghost all = given(entries@);
    let mut index: usize = entries.len();
    assert(all.take(all.len() as int) =~= all);
    while index > 0
        invariant
            index <= entries@.len(),
            all == given(entries@),
            value_of(all, name) == value_of(all.take(index as int), name),
        decreases index,
    {
        let ghost part = all.take(index as int);
        assert(part.drop_last() =~= all.take(index - 1));
        assert(part.last() == all[index - 1]);
        index = index - 1;
        if entries[index].name == name {
            return match &entries[index].value {
                Some(bytes) => Some(bytes.as_slice()),
                None => None,
            };
        }
    }
    None
}

/// Whether a switch was given.
pub fn flag(entries: &Vec<FlagValue>, name: FlagName) -> (found: bool)
    ensures
        found == (value_of(given(entries@), name) == Some(None::<Seq<u8>>)),
{
    let ghost all = given(entries@);
    let mut index: usize = entries.len();
    assert(all.take(all.len() as int) =~= all);
    while index > 0
        invariant
            index <= entries@.len(),
            all == given(entries@),
            value_of(all, name) == value_of(all.take(index as int), name),
        decreases index,
    {
        let ghost part = all.take(index as int);
        assert(part.drop_last() =~= all.take(index - 1));
        assert(part.last() == all[index - 1]);
        index = index - 1;
        if entries[index].name == name {
            return entries[index].value.is_none();
        }
    }
    false
}

/// Whether all bytes are decimal digits.
pub open spec fn all_digits(bytes: Seq<u8>) -> bool {
    forall|i: int| 0 <= i < bytes.len() ==> 48 <= #[trigger] bytes[i] <= 57
}

/// The number that decimal digits stand for.
pub open spec fn digits_value(bytes: Seq<u8>) -> nat
    decreases bytes.len(),
{
    if bytes.len() == 0 {
        0
    } else {
        digits_value(bytes.drop_last()) * 10 + (bytes.last() - 48) as nat
    }
}

/// The digits of a number: a plus sign may stand before them.
pub open spec fn digits_of(bytes: Seq<u8>) -> Seq<u8> {
    if bytes.len() > 0 && bytes[0] == 43 {
        bytes.skip(1)
    } else {
        bytes
    }
}

/// The number that a text stands for: at least one digit, and nothing else
/// behind an optional plus sign.
pub open spec fn number(bytes: Seq<u8>) -> Option<nat> {
    let digits = digits_of(bytes);
    if digits.len() > 0 && all_digits(digits) {
        Some(digits_value(digits))
    } else {
        None
    }
}

proof fn longer_numbers_are_larger(digits: Seq<u8>, count: int)
    requires
        0 <= count <= digits.len(),
        all_digits(digits),
    ensures
        digits_value(digits.take(count)) <= digits_value(digits),
    decreases digits.len(),
{
    if count == digits.len() {
        assert(digits.take(count) =~= digits);
    } else {
        let shorter = digits.drop_last();
        assert(shorter.take(count) =~= digits.take(count));
        assert forall|i: int| 0 <= i < shorter.len() implies 48 <= #[trigger] shorter[i] <= 57 by {
            assert(shorter[i] == digits[i]);
        }
        longer_numbers_are_larger(shorter, count);
    }
}

/// Reads an unsigned number; there is none where it does not fit 64 bits.
pub fn parse_number(bytes: &[u8]) -> (parsed: Option<u64>)
    ensures
        match parsed {
            Some(value) => number(bytes@) == Some(value as nat),
            None => match number(bytes@) {
                Some(value) => value > u64::MAX,
                None => true,
            },
        },
{
    let start: usize = if bytes.len() > 0 && bytes[0] == 43 {
        1
    } else {
        0
    };
    let ghost digits = digits_of(bytes@);
    assert(digits =~= bytes@.skip(start as int));
    if start == bytes.len() {
        return None;
    }
    let mut value: u64 = 0;
    let mut index: usize = start;
    assert(digits.take(0) =~= Seq::empty());
    while index < bytes.len()
        invariant
            start <= index <= bytes@.len(),
            digits == bytes@.skip(start as int),
            digits == digits_of(bytes@),
            forall|i: int| 0 <= i < index - start ==> 48 <= #[trigger] digits[i] <= 57,
            value == digits_value(digits.take(index - start)),
        decreases bytes.len() - index,
    {
        let byte: u8 = bytes[index];
        let ghost at = index - start;
        assert(digits[at] == byte);
        if byte < 48 || byte > 57 {
            assert(!all_digits(digits));
            return None;
        }
        let digit: u64 = (byte - 48) as u64;
        proof {
            let longer = digits.take(at + 1);
            assert(longer.drop_last() =~= digits.take(at));
            assert(longer.last() == byte);
            assert(digits_value(longer) == value * 10 + digit);
            if all_digits(digits) {
                longer_numbers_are_larger(digits, at + 1);
            }
        }
        match value.checked_mul(10) {
            None => {
                return None;
            },
            Some(tens) => match tens.checked_add(digit) {
                None => {
                    return None;
                },
                Some(sum) => {
                    value = sum;
                },
            },
        }
        index = index + 1;
    }
    assert(digits.take(digits.len() as int) =~= digits);
    Some(value)
}

/// The characters that a token may hold.
pub open spec fn token_char(character: char, dots_only: bool) -> bool {
    ||| '0' <= character <= '9'
    ||| 'a' <= character <= 'z'
    ||| 'A' <= character <= 'Z'
    ||| character == '.'
    ||| (!dots_only && (character == '_' || character == '-' || character == ':'))
}

/// A token is not empty, has at most `max` bytes, and holds only letters,
/// digits, dots and, unless only dots are allowed, a few other marks.
pub open spec fn is_token(text: Seq<char>, max: usize, dots_only: bool) -> bool {
    &&& text.len() > 0
    &&& encode_utf8(text).len() <= max
    &&& forall|i: int| 0 <= i < text.len() ==> token_char(#[trigger] text[i], dots_only)
}

fn may_stand_in_token(character: char, dots_only: bool) -> (allowed: bool)
    ensures
        allowed == token_char(character, dots_only),
{
    ('0' <= character && character <= '9') || ('a' <= character && character <= 'z') || ('A'
        <= character && character <= 'Z') || character == '.' || (!dots_only && (character == '_'
        || character == '-' || character == ':'))
}

pub fn validate_token(value: &str, max: usize, dots_only: bool) -> (valid: bool)
    ensures
        valid == is_token(value@, max, dots_only),
{
    if value.as_bytes().len() > max {
        return false;
    }
    let characters = chars_of(value);
    if characters.len() == 0 {
        return false;
    }
    let mut index: usize = 0;
    while index < characters.len()
        invariant
            index <= characters@.len(),
            characters@ == value@,
            forall|i: int| 0 <= i < index ==> token_char(#[trigger] characters@[i], dots_only),
        decreases characters.len() - index,
    {
        if !may_stand_in_token(characters[index], dots_only) {
            assert(!token_char(value@[index as int], dots_only));
            return false;
        }
        index = index + 1;
    }
    true
}

/// One to three decimal digits.
pub open spec fn is_component(text: Seq<char>) -> bool {
    1 <= text.len() <= 3 && forall|i: int| 0 <= i < text.len() ==> '0' <= #[trigger] text[i] <= '9'
}

/// Dots stand at `first` and `second`, and components around them.
pub open spec fn is_divided(text: Seq<char>, first: int, second: int) -> bool {
    &&& 0 <= first < second < text.len()
    &&& text[first] == '.' && text[second] == '.'
    &&& is_component(text.subrange(0, first))
    &&& is_component(text.subrange(first + 1, second))
    &&& is_component(text.subrange(second + 1, text.len() as int))
}

/// A version of a graphics target: three components with dots between them.
pub open spec fn is_hsa_override(text: Seq<char>) -> bool {
    exists|first: int, second: int| #[trigger] is_divided(text, first, second)
}

/// The number of digits at `start`, at most four.
fn digit_run(characters: &Vec<char>, start: usize) -> (end: usize)
    requires
        start <= characters@.len(),
    ensures
        start <= end <= characters@.len(),
        end <= start + 4,
        forall|i: int| start <= i < end ==> '0' <= #[trigger] characters@[i] <= '9',
        end < start + 4 && end < characters@.len() ==> !('0' <= characters@[end as int] <= '9'),
{
    let count: usize = characters.len();
    let mut end: usize = start;
    while end < count && end - start < 4 && '0' <= characters[end] && characters[end] <= '9'
        invariant
            count == characters@.len(),
            start <= end <= count,
            end - start <= 4,
            forall|i: int| start <= i < end ==> '0' <= #[trigger] characters@[i] <= '9',
        decreases count - end,
    {
        end = end + 1;
    }
    end
}

proof fn divisions_agree(text: Seq<char>, start: int, end: int, dot: int)
    requires
        0 <= start <= end <= text.len(),
        forall|i: int| start <= i < end ==> '0' <= #[trigger] text[i] <= '9',
        end < start + 4 && end < text.len() ==> !('0' <= text[end] <= '9'),
        end <= start + 4,
        start <= dot <= text.len(),
        is_component(text.subrange(start, dot)),
        dot == text.len() || text[dot] == '.',
    ensures
        dot == end,
{
    let part = text.subrange(start, dot);
    if end < dot {
        assert(end < start + 4);
        assert(part[end - start] == text[end]);
    }
    if dot < end {
        assert('0' <= text[dot] <= '9');
    }
}

pub fn validate_hsa_override(value: &str) -> (valid: bool)
    ensures
        valid == is_hsa_override(value@),
{
    let characters = chars_of(value);
    let count: usize = characters.len();
    let ghost text = value@;
    let first: usize = digit_run(&characters, 0);
    proof {
        assert forall|a: int, b: int| #[trigger] is_divided(text, a, b) implies a == first by {
            divisions_agree(text, 0, first as int, a);
        }
    }
    if first == 0 || first > 3 || first >= count || characters[first] != '.' {
        return false;
    }
    let second: usize = digit_run(&characters, first + 1);
    proof {
        assert forall|a: int, b: int| #[trigger] is_divided(text, a, b) implies b == second by {
            divisions_agree(text, first + 1, second as int, b);
        }
    }
    if second == first + 1 || second - first > 4 || second >= count || characters[second] != '.' {
        return false;
    }
    let last: usize = digit_run(&characters, second + 1);
    proof {
        assert forall|a: int, b: int| #[trigger] is_divided(text, a, b) implies last == count by {
            divisions_agree(text, second + 1, last as int, count as int);
        }
    }
    if last == second + 1 || last - second > 4 || last != count {
        return false;
    }
    assert(is_divided(text, first as int, second as int));
    true
}

/// The limits of the experiment's gates, by their double-precision bits.
#[derive(Clone, Copy, Debug, PartialEq, Eq, Structural)]
pub struct Gates {
    pub min_face_iou: u64,
    pub max_detector_score_drift: u64,
    pub max_landmark_rmse: u64,
    pub min_embedding_cosine: u64,
    pub max_enrolled_score_drift: u64,
}

/// The bits of 0.95.
pub const DEFAULT_MIN_FACE_IOU: u64 = 0x3fee_6666_6666_6666;

/// The bits of 0.01.
pub const DEFAULT_MAX_DETECTOR_SCORE_DRIFT: u64 = 0x3f84_7ae1_47ae_147b;

/// The bits of 1.
pub const DEFAULT_MAX_LANDMARK_RMSE: u64 = 0x3ff0_0000_0000_0000;

/// The bits of 0.999.
pub const DEFAULT_MIN_EMBEDDING_COSINE: u64 = 0x3fef_f7ce_d916_872b;

/// The bits of 0.01.
pub const DEFAULT_MAX_ENROLLED_SCORE_DRIFT: u64 = 0x3f84_7ae1_47ae_147b;

impl Default for Gates {
    fn default() -> (gates: Self)
        ensures
            gates.min_face_iou == DEFAULT_MIN_FACE_IOU,
            gates.max_detector_score_drift == DEFAULT_MAX_DETECTOR_SCORE_DRIFT,
            gates.max_landmark_rmse == DEFAULT_MAX_LANDMARK_RMSE,
            gates.min_embedding_cosine == DEFAULT_MIN_EMBEDDING_COSINE,
            gates.max_enrolled_score_drift == DEFAULT_MAX_ENROLLED_SCORE_DRIFT,
    {
        Gates {
            min_face_iou: DEFAULT_MIN_FACE_IOU,
            max_detector_score_drift: DEFAULT_MAX_DETECTOR_SCORE_DRIFT,
            max_landmark_rmse: DEFAULT_MAX_LANDMARK_RMSE,
            min_embedding_cosine: DEFAULT_MIN_EMBEDDING_COSINE,
            max_enrolled_score_drift: DEFAULT_MAX_ENROLLED_SCORE_DRIFT,
        }
    }
}

/// From zero to one.
pub open spec fn unit_interval(bits: u64) -> bool {
    at_most64(0, bits) && at_most64(bits, 0x3ff0_0000_0000_0000)
}

/// All numbers are finite, those that compare similarities lie between zero and
/// one, and those that bound a drift are not negative.
pub open spec fn numbers_are_valid(threshold: u32, gates: Gates) -> bool {
    &&& finite32(threshold) && at_most32(0, threshold) && at_most32(threshold, 0x3f80_0000)
    &&& finite64(gates.min_face_iou) && unit_interval(gates.min_face_iou)
    &&& finite64(gates.min_embedding_cosine) && unit_interval(gates.min_embedding_cosine)
    &&& finite64(gates.max_detector_score_drift) && !less64(gates.max_detector_score_drift, 0)
    &&& finite64(gates.max_landmark_rmse) && !less64(gates.max_landmark_rmse, 0)
    &&& finite64(gates.max_enrolled_score_drift) && !less64(gates.max_enrolled_score_drift, 0)
}

pub fn validate_numeric_configuration(threshold: u32, gates: Gates) -> (valid: bool)
    ensures
        valid == numbers_are_valid(threshold, gates),
{
    let one: u64 = 0x3ff0_0000_0000_0000;
    is_finite32(threshold) && is_at_most32(0, threshold) && is_at_most32(threshold, 0x3f80_0000)
        && is_finite64(gates.min_face_iou) && is_at_most64(0, gates.min_face_iou) && is_at_most64(
        gates.min_face_iou,
        one,
    ) && is_finite64(gates.min_embedding_cosine) && is_at_most64(0, gates.min_embedding_cosine)
        && is_at_most64(gates.min_embedding_cosine, one) && is_finite64(
        gates.max_detector_score_drift,
    ) && !is_less64(gates.max_detector_score_drift, 0) && is_finite64(gates.max_landmark_rmse)
        && !is_less64(gates.max_landmark_rmse, 0) && is_finite64(gates.max_enrolled_score_drift)
        && !is_less64(gates.max_enrolled_score_drift, 0)
}

/// The numbers with a fraction, by their bits, that the texts of their options
/// stand for; `None` where a text is no such number. A number whose option was
/// not given is not looked at.
#[derive(Clone, Copy, Debug, PartialEq, Eq, Structural)]
pub struct ReadNumbers {
    pub threshold: Option<u32>,
    pub min_face_iou: Option<u64>,
    pub max_detector_score_drift: Option<u64>,
    pub max_landmark_rmse: Option<u64>,
    pub min_embedding_cosine: Option<u64>,
    pub max_enrolled_score_drift: Option<u64>,
}

/// What a run of the experiment was asked for. Paths are kept as bytes.
#[derive(Debug)]
pub struct ParentConfig {
    pub experiment_root: Vec<u8>,
    pub fixture_dir: Vec<u8>,
    pub manifest: Vec<u8>,
    pub detector_model: Vec<u8>,
    pub recognizer_model: Vec<u8>,
    pub enrolled_model: Option<Vec<u8>>,
    pub result: Vec<u8>,
    pub diagnostics: Option<Vec<u8>>,
    pub threshold: u32,
    pub hsa_override: String,
    pub configured_gpu_target: String,
    pub pairs: u64,
    pub deadline_secs: u64,
    pub allow_mixed: bool,
    pub gates: Gates,
}

/// The limit of a gate: what its option says, or the default.
pub open spec fn gate_limit(
    entries: Seq<Given>,
    name: FlagName,
    read: Option<u64>,
    default: u64,
) -> Result<u64, ArgsError> {
    if bytes_of(entries, name) is None {
        Ok(default)
    } else {
        match read {
            Some(bits) => Ok(bits),
            None => Err(ArgsError::InvalidNumber(name)),
        }
    }
}

/// The gates with their limits.
pub open spec fn gates_of(entries: Seq<Given>, numbers: ReadNumbers) -> Result<Gates, ArgsError> {
    let iou = gate_limit(
        entries,
        FlagName::MinFaceIou,
        numbers.min_face_iou,
        DEFAULT_MIN_FACE_IOU,
    );
    let score = gate_limit(
        entries,
        FlagName::MaxDetectorScoreDrift,
        numbers.max_detector_score_drift,
        DEFAULT_MAX_DETECTOR_SCORE_DRIFT,
    );
    let landmark = gate_limit(
        entries,
        FlagName::MaxLandmarkRmse,
        numbers.max_landmark_rmse,
        DEFAULT_MAX_LANDMARK_RMSE,
    );
    let cosine = gate_limit(
        entries,
        FlagName::MinEmbeddingCosine,
        numbers.min_embedding_cosine,
        DEFAULT_MIN_EMBEDDING_COSINE,
    );
    let enrolled = gate_limit(
        entries,
        FlagName::MaxEnrolledScoreDrift,
        numbers.max_enrolled_score_drift,
        DEFAULT_MAX_ENROLLED_SCORE_DRIFT,
    );
    match (iou, score, landmark, cosine, enrolled) {
        (Err(error), _, _, _, _) => Err(error),
        (_, Err(error), _, _, _) => Err(error),
        (_, _, Err(error), _, _) => Err(error),
        (_, _, _, Err(error), _) => Err(error),
        (_, _, _, _, Err(error)) => Err(error),
        (Ok(iou), Ok(score), Ok(landmark), Ok(cosine), Ok(enrolled)) => Ok(
            Gates {
                min_face_iou: iou,
                max_detector_score_drift: score,
                max_landmark_rmse: landmark,
                min_embedding_cosine: cosine,
                max_enrolled_score_drift: enrolled,
            },
        ),
    }
}

/// The text of an option, where it has one.
pub open spec fn text_of(entries: Seq<Given>, name: FlagName) -> Option<Seq<char>> {
    match bytes_of(entries, name) {
        Some(bytes) => if valid_utf8(bytes) {
            Some(decode_utf8(bytes))
        } else {
            None
        },
        None => None,
    }
}

/// The threshold, which must be given.
pub open spec fn threshold_of(entries: Seq<Given>, numbers: ReadNumbers) -> Result<u32, ArgsError> {
    if text_of(entries, FlagName::Threshold) is None {
        Err(ArgsError::Missing(FlagName::Threshold))
    } else {
        match numbers.threshold {
            Some(bits) => Ok(bits),
            None => Err(ArgsError::InvalidNumber(FlagName::Threshold)),
        }
    }
}

/// The whole number of an option, or the default.
pub open spec fn count_of(entries: Seq<Given>, name: FlagName, default: u64) -> Result<
    u64,
    ArgsError,
> {
    match bytes_of(entries, name) {
        None => Ok(default),
        Some(bytes) => match number(bytes) {
            Some(value) => if value <= u64::MAX {
                Ok(value as u64)
            } else {
                Err(ArgsError::InvalidNumber(name))
            },
            None => Err(ArgsError::InvalidNumber(name)),
        },
    }
}

/// The first path that is missing among those that must be given.
pub open spec fn missing_path(entries: Seq<Given>) -> Option<FlagName> {
    if bytes_of(entries, FlagName::ExperimentRoot) is None {
        Some(FlagName::ExperimentRoot)
    } else if bytes_of(entries, FlagName::Fixtures) is None {
        Some(FlagName::Fixtures)
    } else if bytes_of(entries, FlagName::Manifest) is None {
        Some(FlagName::Manifest)
    } else if bytes_of(entries, FlagName::DetectorModel) is None {
        Some(FlagName::DetectorModel)
    } else if bytes_of(entries, FlagName::RecognizerModel) is None {
        Some(FlagName::RecognizerModel)
    } else if bytes_of(entries, FlagName::ResultFile) is None {
        Some(FlagName::ResultFile)
    } else {
        None
    }
}

/// Why the options given do not make up a run.
pub open spec fn parent_error(entries: Seq<Given>, numbers: ReadNumbers) -> Option<ArgsError> {
    let gates = gates_of(entries, numbers);
    let threshold = threshold_of(entries, numbers);
    let pairs = count_of(entries, FlagName::Pairs, DEFAULT_PAIRS);
    let deadline = count_of(entries, FlagName::WorkerDeadlineSecs, DEFAULT_WORKER_DEADLINE_SECS);
    let hsa = text_of(entries, FlagName::HsaOverride);
    let target = text_of(entries, FlagName::ConfiguredGpuTarget);
    if gates is Err {
        Some(gates->Err_0)
    } else if threshold is Err {
        Some(threshold->Err_0)
    } else if !numbers_are_valid(threshold->Ok_0, gates->Ok_0) {
        Some(ArgsError::NumericConfiguration)
    } else if pairs is Err {
        Some(pairs->Err_0)
    } else if deadline is Err {
        Some(deadline->Err_0)
    } else if !(1 <= pairs->Ok_0 <= MAX_PAIRS) || !(1 <= deadline->Ok_0
        <= MAX_WORKER_DEADLINE_SECS) {
        Some(ArgsError::Limits)
    } else if hsa is None {
        Some(ArgsError::Missing(FlagName::HsaOverride))
    } else if target is None {
        Some(ArgsError::Missing(FlagName::ConfiguredGpuTarget))
    } else if !is_hsa_override(hsa->0) {
        Some(ArgsError::HsaOverride)
    } else if !is_token(target->0, 64, false) {
        Some(ArgsError::GpuTarget)
    } else {
        match missing_path(entries) {
            Some(name) => Some(ArgsError::Missing(name)),
            None => None,
        }
    }
}

fn read_gate(entries: &Vec<FlagValue>, name: FlagName, read: Option<u64>, default: u64) -> (limit:
    Result<u64, ArgsError>)
    ensures
        limit == gate_limit(given(entries@), name, read, default),
{
    if flag_bytes(entries, name).is_none() {
        return Ok(default);
    }
    match read {
        Some(bits) => Ok(bits),
        None => Err(ArgsError::InvalidNumber(name)),
    }
}

fn read_gates(entries: &Vec<FlagValue>, numbers: ReadNumbers) -> (gates: Result<Gates, ArgsError>)
    ensures
        gates == gates_of(given(entries@), numbers),
{
    let min_face_iou: u64 = read_gate(
        entries,
        FlagName::MinFaceIou,
        numbers.min_face_iou,
        DEFAULT_MIN_FACE_IOU,
    )?;
    let max_detector_score_drift: u64 = read_gate(
        entries,
        FlagName::MaxDetectorScoreDrift,
        numbers.max_detector_score_drift,
        DEFAULT_MAX_DETECTOR_SCORE_DRIFT,
    )?;
    let max_landmark_rmse: u64 = read_gate(
        entries,
        FlagName::MaxLandmarkRmse,
        numbers.max_landmark_rmse,
        DEFAULT_MAX_LANDMARK_RMSE,
    )?;
    let min_embedding_cosine: u64 = read_gate(
        entries,
        FlagName::MinEmbeddingCosine,
        numbers.min_embedding_cosine,
        DEFAULT_MIN_EMBEDDING_COSINE,
    )?;
    let max_enrolled_score_drift: u64 = read_gate(
        entries,
        FlagName::MaxEnrolledScoreDrift,
        numbers.max_enrolled_score_drift,
        DEFAULT_MAX_ENROLLED_SCORE_DRIFT,
    )?;
    Ok(
        Gates {
            min_face_iou,
            max_detector_score_drift,
            max_landmark_rmse,
            min_embedding_cosine,
            max_enrolled_score_drift,
        },
    )
}

/// The text of an option that must be given.
pub fn required_string(entries: &Vec<FlagValue>, name: FlagName) -> (value: Result<
    String,
    ArgsError,
>)
    ensures
        match value {
            Ok(text) => text_of(given(entries@), name) == Some(text@),
            Err(error) => text_of(given(entries@), name) is None && error == ArgsError::Missing(
                name,
            ),
        },
{
    match flag_bytes(entries, name) {
        Some(bytes) => match utf8_text(bytes) {
            Some(text) => Ok(text),
            None => Err(ArgsError::Missing(name)),
        },
        None => Err(ArgsError::Missing(name)),
    }
}

/// The path of an option that may be given.
pub fn optional_path(entries: &Vec<FlagValue>, name: FlagName) -> (path: Option<Vec<u8>>)
    ensures
        bytes_view(path) == bytes_of(given(entries@), name),
{
    match flag_bytes(entries, name) {
        Some(bytes) => {
            let mut path: Vec<u8> = Vec::new();
            path.extend_from_slice(bytes);
            assert(path@ =~= bytes@);
            Some(path)
        },
        None => None,
    }
}

/// The path of an option that must be given.
pub fn required_path(entries: &Vec<FlagValue>, name: FlagName) -> (path: Result<Vec<u8>, ArgsError>)
    ensures
        match path {
            Ok(bytes) => bytes_of(given(entries@), name) == Some(bytes@),
            Err(error) => bytes_of(given(entries@), name) is None && error == ArgsError::Missing(
                name,
            ),
        },
{
    match optional_path(entries, name) {
        Some(path) => Ok(path),
        None => Err(ArgsError::Missing(name)),
    }
}

/// The whole number of an option, or the default.
pub fn optional_u64(entries: &Vec<FlagValue>, name: FlagName, default: u64) -> (value: Result<
    u64,
    ArgsError,
>)
    ensures
        value == count_of(given(entries@), name, default),
{
    match flag_bytes(entries, name) {
        None => Ok(default),
        Some(bytes) => match parse_number(bytes) {
            Some(value) => Ok(value),
            None => Err(ArgsError::InvalidNumber(name)),
        },
    }
}

/// The run that the options ask for.
pub fn parse_parent_args(entries: &Vec<FlagValue>, numbers: ReadNumbers) -> (config: Result<
    ParentConfig,
    ArgsError,
>)
    ensures
        match config {
            Err(error) => parent_error(given(entries@), numbers) == Some(error),
            Ok(run) => {
                let all = given(entries@);
                &&& parent_error(all, numbers) is None
                &&& Some(run.experiment_root@) == bytes_of(all, FlagName::ExperimentRoot)
                &&& Some(run.fixture_dir@) == bytes_of(all, FlagName::Fixtures)
                &&& Some(run.manifest@) == bytes_of(all, FlagName::Manifest)
                &&& Some(run.detector_model@) == bytes_of(all, FlagName::DetectorModel)
                &&& Some(run.recognizer_model@) == bytes_of(all, FlagName::RecognizerModel)
                &&& bytes_view(run.enrolled_model) == bytes_of(all, FlagName::ModelFile)
                &&& Some(run.result@) == bytes_of(all, FlagName::ResultFile)
                &&& bytes_view(run.diagnostics) == bytes_of(all, FlagName::Diagnostics)
                &&& Ok::<u32, ArgsError>(run.threshold) == threshold_of(all, numbers)
                &&& Some(run.hsa_override@) == text_of(all, FlagName::HsaOverride)
                &&& Some(run.configured_gpu_target@) == text_of(all, FlagName::ConfiguredGpuTarget)
                &&& Ok::<u64, ArgsError>(run.pairs) == count_of(all, FlagName::Pairs, DEFAULT_PAIRS)
                &&& Ok::<u64, ArgsError>(run.deadline_secs) == count_of(
                    all,
                    FlagName::WorkerDeadlineSecs,
                    DEFAULT_WORKER_DEADLINE_SECS,
                )
                &&& run.allow_mixed == (value_of(all, FlagName::AllowMixedPlacement) == Some(
                    None::<Seq<u8>>,
                ))
                &&& Ok::<Gates, ArgsError>(run.gates) == gates_of(all, numbers)
            },
        },
{
    let gates: Gates = read_gates(entries, numbers)?;
    let _threshold_text = required_string(entries, FlagName::Threshold)?;
    let threshold: u32 = match numbers.threshold {
        Some(bits) => bits,
        None => {
            return Err(ArgsError::InvalidNumber(FlagName::Threshold));
        },
    };
    if !validate_numeric_configuration(threshold, gates) {
        return Err(ArgsError::NumericConfiguration);
    }
    let pairs: u64 = optional_u64(entries, FlagName::Pairs, DEFAULT_PAIRS)?;
    let deadline_secs: u64 = optional_u64(
        entries,
        FlagName::WorkerDeadlineSecs,
        DEFAULT_WORKER_DEADLINE_SECS,
    )?;
    if pairs < 1 || pairs > MAX_PAIRS || deadline_secs < 1 || deadline_secs
        > MAX_WORKER_DEADLINE_SECS {
        return Err(ArgsError::Limits);
    }
    let hsa_override = required_string(entries, FlagName::HsaOverride)?;
    let configured_gpu_target = required_string(entries, FlagName::ConfiguredGpuTarget)?;
    if !validate_hsa_override(hsa_override.as_str()) {
        return Err(ArgsError::HsaOverride);
    }
    if !validate_token(configured_gpu_target.as_str(), 64, false) {
        return Err(ArgsError::GpuTarget);
    }
    Ok(
        ParentConfig {
            experiment_root: required_path(entries, FlagName::ExperimentRoot)?,
            fixture_dir: required_path(entries, FlagName::Fixtures)?,
            manifest: required_path(entries, FlagName::Manifest)?,
            detector_model: required_path(entries, FlagName::DetectorModel)?,
            recognizer_model: required_path(entries, FlagName::RecognizerModel)?,
            enrolled_model: optional_path(entries, FlagName::ModelFile),
            result: required_path(entries, FlagName::ResultFile)?,
            diagnostics: optional_path(entries, FlagName::Diagnostics),
            threshold,
            hsa_override,
            configured_gpu_target,
            pairs,
            deadline_secs,
            allow_mixed: flag(entries, FlagName::AllowMixedPlacement),
            gates,
        },
    )
}

/// Why the paths of a run cannot be used together.
#[derive(Clone, Copy, Debug, PartialEq, Eq, Structural)]
pub enum PathsError {
    UnsafeRelativePath,
    DiagnosticResultAlias,
    OutputInputOverlap,
}

/// Whether an output would be written over an input: it lies in the fixture
/// directory, or is one of the files that are read.
pub open spec fn overlaps(config: ParentConfig, output: Seq<u8>) -> bool {
    ||| lies_below(output, config.fixture_dir@)
    ||| same_path(output, config.manifest@)
    ||| same_path(output, config.detector_model@)
    ||| same_path(output, config.recognizer_model@)
    ||| (config.enrolled_model matches Some(enrolled) && same_path(enrolled@, output))
}

/// Why the paths of a run are rejected.
pub open spec fn paths_error(config: ParentConfig) -> Option<PathsError> {
    let diagnostics = bytes_view(config.diagnostics);
    if !contained_path(config.fixture_dir@) || !contained_path(config.manifest@) || !contained_path(
        config.detector_model@,
    ) || !contained_path(config.recognizer_model@) || !contained_path(config.result@) || (
    config.enrolled_model matches Some(path) && !contained_path(path@)) || (
    config.diagnostics matches Some(path) && !contained_path(path@)) {
        Some(PathsError::UnsafeRelativePath)
    } else if diagnostics is Some && same_path(diagnostics->0, config.result@) {
        Some(PathsError::DiagnosticResultAlias)
    } else if overlaps(config, config.result@) || (diagnostics is Some && overlaps(
        config,
        diagnostics->0,
    )) {
        Some(PathsError::OutputInputOverlap)
    } else {
        None
    }
}

fn output_overlaps(config: &ParentConfig, output: &[u8]) -> (found: bool)
    ensures
        found == overlaps(*config, output@),
{
    let enrolled = match &config.enrolled_model {
        Some(path) => is_same_path(path.as_slice(), output),
        None => false,
    };
    is_below(output, config.fixture_dir.as_slice()) || is_same_path(
        output,
        config.manifest.as_slice(),
    ) || is_same_path(output, config.detector_model.as_slice()) || is_same_path(
        output,
        config.recognizer_model.as_slice(),
    ) || enrolled
}

/// Every path stays below the experiment's root, and no output may be an input
/// or the other output.
pub fn validate_config_paths(config: &ParentConfig) -> (result: Result<(), PathsError>)
    ensures
        result == (match paths_error(*config) {
            Some(error) => Err(error),
            None => Ok(()),
        }),
{
    if !is_contained_path(config.fixture_dir.as_slice()) || !is_contained_path(
        config.manifest.as_slice(),
    ) || !is_contained_path(config.detector_model.as_slice()) || !is_contained_path(
        config.recognizer_model.as_slice(),
    ) || !is_contained_path(config.result.as_slice()) {
        return Err(PathsError::UnsafeRelativePath);
    }
    match &config.enrolled_model {
        Some(path) => {
            if !is_contained_path(path.as_slice()) {
                return Err(PathsError::UnsafeRelativePath);
            }
        },
        None => {},
    }
    match &config.diagnostics {
        Some(path) => {
            if !is_contained_path(path.as_slice()) {
                return Err(PathsError::UnsafeRelativePath);
            }
            if is_same_path(path.as_slice(), config.result.as_slice()) {
                return Err(PathsError::DiagnosticResultAlias);
            }
        },
        None => {},
    }
    if output_overlaps(config, config.result.as_slice()) {
        return Err(PathsError::OutputInputOverlap);
    }
    match &config.diagnostics {
        Some(path) => {
            if output_overlaps(config, path.as_slice()) {
                return Err(PathsError::OutputInputOverlap);
            }
        },
        None => {},
    }
    Ok(())
}

/// Where the paths of a run are accepted, nothing that it writes is anything
/// that it reads.
pub proof fn outputs_never_replace_inputs(config: ParentConfig)
    requires
        paths_error(config) is None,
    ensures
        !same_path(config.result@, config.manifest@),
        !same_path(config.result@, config.detector_model@),
        !same_path(config.result@, config.recognizer_model@),
        !lies_below(config.result@, config.fixture_dir@),
        config.enrolled_model matches Some(path) ==> !same_path(path@, config.result@),
        config.diagnostics matches Some(path) ==> {
            &&& !same_path(path@, config.result@)
            &&& !same_path(path@, config.manifest@)
            &&& !lies_below(path@, config.fixture_dir@)
        },
{
}


proof fn flag_texts_differ()
    ensures
        encode_utf8("experiment-root"@).len() == 15,
        encode_utf8("fixtures"@).len() == 8 && encode_utf8("fixtures"@)[0] == 102,
        encode_utf8("manifest"@).len() == 8 && encode_utf8("manifest"@)[0] == 109,
        encode_utf8("detector-model"@).len() == 14,
        encode_utf8("recognizer-model"@).len() == 16,
        encode_utf8("model-file"@).len() == 10,
        encode_utf8("result"@).len() == 6,
        encode_utf8("diagnostics"@).len() == 11,
        encode_utf8("threshold"@).len() == 9,
        encode_utf8("hsa-override"@).len() == 12 && encode_utf8("hsa-override"@)[0] == 104,
        encode_utf8("configured-gpu-target"@).len() == 21 && encode_utf8(
            "configured-gpu-target"@,
        )[0] == 99,
        encode_utf8("pairs"@).len() == 5,
        encode_utf8("worker-deadline-secs"@).len() == 20 && encode_utf8("worker-deadline-secs"@)[0]
            == 119,
        encode_utf8("min-face-iou"@).len() == 12 && encode_utf8("min-face-iou"@)[0] == 109,
        encode_utf8("max-detector-score-drift"@).len() == 24 && encode_utf8(
            "max-detector-score-drift"@,
        )[4] == 100,
        encode_utf8("max-landmark-rmse"@).len() == 17,
        encode_utf8("min-embedding-cosine"@).len() == 20 && encode_utf8("min-embedding-cosine"@)[0]
            == 109,
        encode_utf8("max-enrolled-score-drift"@).len() == 24 && encode_utf8(
            "max-enrolled-score-drift"@,
        )[4] == 101,
        encode_utf8("allow-mixed-placement"@).len() == 21 && encode_utf8(
            "allow-mixed-placement"@,
        )[0] == 97,
{
    reveal_strlit("experiment-root");
    reveal_strlit("fixtures");
    reveal_strlit("manifest");
    reveal_strlit("detector-model");
    reveal_strlit("recognizer-model");
    reveal_strlit("model-file");
    reveal_strlit("result");
    reveal_strlit("diagnostics");
    reveal_strlit("threshold");
    reveal_strlit("hsa-override");
    reveal_strlit("configured-gpu-target");
    reveal_strlit("pairs");
    reveal_strlit("worker-deadline-secs");
    reveal_strlit("min-face-iou");
    reveal_strlit("max-detector-score-drift");
    reveal_strlit("max-landmark-rmse");
    reveal_strlit("min-embedding-cosine");
    reveal_strlit("max-enrolled-score-drift");
    reveal_strlit("allow-mixed-placement");
    is_ascii_chars_encode_utf8("experiment-root"@);
    is_ascii_chars_encode_utf8("fixtures"@);
    is_ascii_chars_encode_utf8("manifest"@);
    is_ascii_chars_encode_utf8("detector-model"@);
    is_ascii_chars_encode_utf8("recognizer-model"@);
    is_ascii_chars_encode_utf8("model-file"@);
    is_ascii_chars_encode_utf8("result"@);
    is_ascii_chars_encode_utf8("diagnostics"@);
    is_ascii_chars_encode_utf8("threshold"@);
    is_ascii_chars_encode_utf8("hsa-override"@);
    is_ascii_chars_encode_utf8("configured-gpu-target"@);
    is_ascii_chars_encode_utf8("pairs"@);
    is_ascii_chars_encode_utf8("worker-deadline-secs"@);
    is_ascii_chars_encode_utf8("min-face-iou"@);
    is_ascii_chars_encode_utf8("max-detector-score-drift"@);
    is_ascii_chars_encode_utf8("max-landmark-rmse"@);
    is_ascii_chars_encode_utf8("min-embedding-cosine"@);
    is_ascii_chars_encode_utf8("max-enrolled-score-drift"@);
    is_ascii_chars_encode_utf8("allow-mixed-placement"@);
}

/// Each flag has its name, and no other name is a flag.
pub proof fn flags_have_their_names(name: Seq<u8>)
    ensures
        flag_named(name) == Some(FlagName::ExperimentRoot) <==> name == encode_utf8(
            "experiment-root"@,
        ),
        flag_named(name) == Some(FlagName::Fixtures) <==> name == encode_utf8("fixtures"@),
        flag_named(name) == Some(FlagName::Manifest) <==> name == encode_utf8("manifest"@),
        flag_named(name) == Some(FlagName::DetectorModel) <==> name == encode_utf8(
            "detector-model"@,
        ),
        flag_named(name) == Some(FlagName::RecognizerModel) <==> name == encode_utf8(
            "recognizer-model"@,
        ),
        flag_named(name) == Some(FlagName::ModelFile) <==> name == encode_utf8("model-file"@),
        flag_named(name) == Some(FlagName::ResultFile) <==> name == encode_utf8("result"@),
        flag_named(name) == Some(FlagName::Diagnostics) <==> name == encode_utf8("diagnostics"@),
        flag_named(name) == Some(FlagName::Threshold) <==> name == encode_utf8("threshold"@),
        flag_named(name) == Some(FlagName::HsaOverride) <==> name == encode_utf8("hsa-override"@),
        flag_named(name) == Some(FlagName::ConfiguredGpuTarget) <==> name == encode_utf8(
            "configured-gpu-target"@,
        ),
        flag_named(name) == Some(FlagName::Pairs) <==> name == encode_utf8("pairs"@),
        flag_named(name) == Some(FlagName::WorkerDeadlineSecs) <==> name == encode_utf8(
            "worker-deadline-secs"@,
        ),
        flag_named(name) == Some(FlagName::MinFaceIou) <==> name == encode_utf8("min-face-iou"@),
        flag_named(name) == Some(FlagName::MaxDetectorScoreDrift) <==> name == encode_utf8(
            "max-detector-score-drift"@,
        ),
        flag_named(name) == Some(FlagName::MaxLandmarkRmse) <==> name == encode_utf8(
            "max-landmark-rmse"@,
        ),
        flag_named(name) == Some(FlagName::MinEmbeddingCosine) <==> name == encode_utf8(
            "min-embedding-cosine"@,
        ),
        flag_named(name) == Some(FlagName::MaxEnrolledScoreDrift) <==> name == encode_utf8(
            "max-enrolled-score-drift"@,
        ),
        flag_named(name) == Some(FlagName::AllowMixedPlacement) <==> name == encode_utf8(
            "allow-mixed-placement"@,
        ),
{
    flag_texts_differ();
}

/// Words are read as flags with their values, one after the other: each flag that takes
/// a value has the word behind it, and reading goes on behind that.
pub proof fn flags_take_the_words_behind_them(words: Seq<Seq<u8>>, at: int, so_far: Seq<Given>)
    requires
        0 <= at < words.len(),
        read_flags(words, at, so_far) is Ok,
    ensures
        ({
            let entries = read_flags(words, at, so_far)->Ok_0;
            let k = so_far.len() as int;
            &&& entries.len() > k
            &&& entries.take(k) == so_far
            &&& words[at].len() >= 2 && words[at][0] == 45 && words[at][1] == 45
            &&& flag_named(words[at].skip(2)) == Some(entries[k].name)
            &&& entries[k].name == FlagName::AllowMixedPlacement ==> entries[k].value is None
                && read_flags(words, at + 1, so_far.push(entries[k])) == read_flags(
                words,
                at,
                so_far,
            )
            &&& entries[k].name != FlagName::AllowMixedPlacement ==> at + 1 < words.len()
                && entries[k].value == Some(words[at + 1]) && read_flags(
                words,
                at + 2,
                so_far.push(entries[k]),
            ) == read_flags(words, at, so_far)
        }),
{
    let name = named_by(words[at])->Ok_0;
    reveal_strlit("--");
    is_ascii_chars_encode_utf8("--"@);
    assert(words[at].take(2)[0] == words[at][0] && words[at].take(2)[1] == words[at][1]);
    if name == FlagName::AllowMixedPlacement {
        reading_keeps_what_was_read(words, at + 1, so_far.push(Given { name, value: None }));
    } else {
        reading_keeps_what_was_read(
            words,
            at + 2,
            so_far.push(Given { name, value: Some(words[at + 1]) }),
        );
    }
    let entries = read_flags(words, at, so_far)->Ok_0;
    let k = so_far.len() as int;
    assert(entries.take(k) =~= entries.take(k + 1).take(k));
    assert(entries.take(k) =~= so_far);
    assert(entries[k] == entries.take(k + 1)[k]);
}

proof fn reading_keeps_what_was_read(words: Seq<Seq<u8>>, at: int, so_far: Seq<Given>)
    requires
        read_flags(words, at, so_far) is Ok,
    ensures
        read_flags(words, at, so_far)->Ok_0.len() >= so_far.len(),
        read_flags(words, at, so_far)->Ok_0.take(so_far.len() as int) == so_far,
    decreases words.len() - at,
{
    if at < 0 || at >= words.len() {
        assert(so_far.take(so_far.len() as int) =~= so_far);
    } else {
        let name = named_by(words[at])->Ok_0;
        let entries = read_flags(words, at, so_far)->Ok_0;
        let k = so_far.len() as int;
        if name == FlagName::AllowMixedPlacement {
            let more = so_far.push(Given { name, value: None });
            reading_keeps_what_was_read(words, at + 1, more);
            assert(entries.take(k) =~= entries.take(k + 1).take(k));
            assert(more.take(k) =~= so_far);
        } else {
            let more = so_far.push(Given { name, value: Some(words[at + 1]) });
            reading_keeps_what_was_read(words, at + 2, more);
            assert(entries.take(k) =~= entries.take(k + 1).take(k));
            assert(more.take(k) =~= so_far);
        }
    }
}

/// A flag has the value that was given for it, and none where it was not given.
pub proof fn flags_have_the_values_given(entries: Seq<Given>, name: FlagName)
    requires
        well_given(entries),
    ensures
        forall|i: int|
            0 <= i < entries.len() && (#[trigger] entries[i]).name == name ==> value_of(
                entries,
                name,
            ) == Some(entries[i].value),
        (forall|i: int| 0 <= i < entries.len() ==> (#[trigger] entries[i]).name != name)
            ==> value_of(entries, name) is None,
    decreases entries.len(),
{
    if entries.len() > 0 {
        let before = entries.drop_last();
        assert(well_given(before)) by {
            assert forall|i: int, j: int| 0 <= i < j < before.len() implies #[trigger]
            before[i].name != #[trigger] before[j].name by {
                assert(entries[i].name != entries[j].name);
            }
            assert forall|i: int| 0 <= i < before.len() implies ((#[trigger] before[i]).value is None
                <==> before[i].name == FlagName::AllowMixedPlacement) by {
                assert(before[i] == entries[i]);
            }
        }
        flags_have_the_values_given(before, name);
        let last = entries.len() - 1;
        assert forall|i: int| 0 <= i < entries.len() && (#[trigger] entries[i]).name
            == name implies value_of(entries, name) == Some(entries[i].value) by {
            if i < last {
                assert(entries[i].name != entries[last].name);
                assert(before[i] == entries[i]);
            }
        }
        if forall|i: int| 0 <= i < entries.len() ==> (#[trigger] entries[i]).name != name {
            assert(entries[last].name != name);
            assert forall|i: int| 0 <= i < before.len() implies (#[trigger] before[i]).name
                != name by {
                assert(before[i] == entries[i]);
            }
        }
    }
}

/// A number is read as it is written, with a plus sign before it or without.
pub proof fn numbers_are_read_as_written(value: nat)
    ensures
        number(encode_utf8(crate::text::decimal(value))) == Some(value),
        number(seq![43u8] + encode_utf8(crate::text::decimal(value))) == Some(value),
{
    let text = crate::text::decimal(value);
    let bytes = encode_utf8(text);
    decimals_are_digits(value);
    crate::text::decimals_stand_for_their_number(value);
    assert(bytes[0] != 43);
    assert((seq![43u8] + bytes).skip(1) =~= bytes);
}

proof fn decimals_are_digits(value: nat)
    ensures
        encode_utf8(crate::text::decimal(value)).len() > 0,
        all_digits(encode_utf8(crate::text::decimal(value))),
        digits_value(encode_utf8(crate::text::decimal(value))) == value,
    decreases value,
{
    let text = crate::text::decimal(value);
    crate::text::decimals_stand_for_their_number(value);
    assert forall|i: int| 0 <= i < text.len() implies '\0' <= #[trigger] text[i] <= '\u{7f}' by {}
    is_ascii_chars_encode_utf8(text);
    let bytes = encode_utf8(text);
    assert forall|i: int| 0 <= i < bytes.len() implies 48 <= #[trigger] bytes[i] <= 57 by {
        assert('0' <= text[i] <= '9');
        assert(text[i] as u8 == bytes[i]);
    }
    let last = bytes.len() - 1;
    if value < 10 {
        assert(bytes.len() == 1);
        assert(text[0] as u8 == bytes[0]);
        assert(bytes.drop_last() =~= Seq::<u8>::empty());
        assert(digits_value(bytes.drop_last()) == 0);
    } else {
        let before = crate::text::decimal(value / 10);
        decimals_are_digits(value / 10);
        crate::text::decimals_stand_for_their_number(value / 10);
        assert forall|i: int| 0 <= i < before.len() implies '\0' <= #[trigger] before[i]
            <= '\u{7f}' by {}
        is_ascii_chars_encode_utf8(before);
        assert(bytes.drop_last() =~= encode_utf8(before)) by {
            assert forall|i: int| 0 <= i < before.len() implies bytes[i] == encode_utf8(
                before,
            )[i] by {
                assert(text[i] == before[i]);
                assert(text[i] as u8 == bytes[i]);
            }
        }
        assert(text[last] as u8 == bytes[last]);
    }
}

/// Each limit comes from its own flag, and where that is not given, it is the one that
/// is set for it.
pub proof fn limits_come_from_their_flags(entries: Seq<Given>, numbers: ReadNumbers)
    ensures
        gates_of(entries, numbers) matches Ok(gates) ==> {
            &&& bytes_of(entries, FlagName::MinFaceIou) is None ==> gates.min_face_iou
                == 0x3fee_6666_6666_6666
            &&& bytes_of(entries, FlagName::MinFaceIou) is Some ==> numbers.min_face_iou == Some(
                gates.min_face_iou,
            )
            &&& bytes_of(entries, FlagName::MaxDetectorScoreDrift) is None
                ==> gates.max_detector_score_drift == 0x3f84_7ae1_47ae_147b
            &&& bytes_of(entries, FlagName::MaxDetectorScoreDrift) is Some
                ==> numbers.max_detector_score_drift == Some(gates.max_detector_score_drift)
            &&& bytes_of(entries, FlagName::MaxLandmarkRmse) is None ==> gates.max_landmark_rmse
                == 0x3ff0_0000_0000_0000
            &&& bytes_of(entries, FlagName::MaxLandmarkRmse) is Some ==> numbers.max_landmark_rmse
                == Some(gates.max_landmark_rmse)
            &&& bytes_of(entries, FlagName::MinEmbeddingCosine) is None
                ==> gates.min_embedding_cosine == 0x3fef_f7ce_d916_872b
            &&& bytes_of(entries, FlagName::MinEmbeddingCosine) is Some
                ==> numbers.min_embedding_cosine == Some(gates.min_embedding_cosine)
            &&& bytes_of(entries, FlagName::MaxEnrolledScoreDrift) is None
                ==> gates.max_enrolled_score_drift == 0x3f84_7ae1_47ae_147b
            &&& bytes_of(entries, FlagName::MaxEnrolledScoreDrift) is Some
                ==> numbers.max_enrolled_score_drift == Some(gates.max_enrolled_score_drift)
        },
        gates_of(entries, numbers) is Ok <==> {
            &&& bytes_of(entries, FlagName::MinFaceIou) is Some ==> numbers.min_face_iou is Some
            &&& bytes_of(entries, FlagName::MaxDetectorScoreDrift) is Some
                ==> numbers.max_detector_score_drift is Some
            &&& bytes_of(entries, FlagName::MaxLandmarkRmse) is Some ==> numbers.max_landmark_rmse
                is Some
            &&& bytes_of(entries, FlagName::MinEmbeddingCosine) is Some
                ==> numbers.min_embedding_cosine is Some
            &&& bytes_of(entries, FlagName::MaxEnrolledScoreDrift) is Some
                ==> numbers.max_enrolled_score_drift is Some
        },
{
}

/// A run is accepted exactly where all that it needs is given and in range.
pub proof fn accepted_runs_are_in_range(entries: Seq<Given>, numbers: ReadNumbers)
    ensures
        parent_error(entries, numbers) is None <==> {
            &&& gates_of(entries, numbers) is Ok
            &&& text_of(entries, FlagName::Threshold) is Some && numbers.threshold is Some
            &&& numbers_are_valid(numbers.threshold->0, gates_of(entries, numbers)->Ok_0)
            &&& bytes_of(entries, FlagName::Pairs) matches Some(bytes) ==> (number(
                bytes,
            ) matches Some(pairs) && 1 <= pairs <= 16)
            &&& bytes_of(entries, FlagName::WorkerDeadlineSecs) matches Some(bytes) ==> (number(
                bytes,
            ) matches Some(seconds) && 1 <= seconds <= 3600)
            &&& text_of(entries, FlagName::HsaOverride) matches Some(version) && is_hsa_override(
                version,
            )
            &&& text_of(entries, FlagName::ConfiguredGpuTarget) matches Some(target) && is_token(
                target,
                64,
                false,
            )
            &&& bytes_of(entries, FlagName::ExperimentRoot) is Some
            &&& bytes_of(entries, FlagName::Fixtures) is Some
            &&& bytes_of(entries, FlagName::Manifest) is Some
            &&& bytes_of(entries, FlagName::DetectorModel) is Some
            &&& bytes_of(entries, FlagName::RecognizerModel) is Some
            &&& bytes_of(entries, FlagName::ResultFile) is Some
        },
        count_of(entries, FlagName::Pairs, DEFAULT_PAIRS) matches Ok(pairs) ==> (match bytes_of(
            entries,
            FlagName::Pairs,
        ) {
            Some(bytes) => number(bytes) == Some(pairs as nat),
            None => pairs == 2,
        }),
        count_of(
            entries,
            FlagName::WorkerDeadlineSecs,
            DEFAULT_WORKER_DEADLINE_SECS,
        ) matches Ok(seconds) ==> (match bytes_of(entries, FlagName::WorkerDeadlineSecs) {
            Some(bytes) => number(bytes) == Some(seconds as nat),
            None => seconds == 600,
        }),
{
}

/// The threshold and the two lowest values lie between zero and one, and no largest
/// value is negative or infinite. A zero may have a sign.
pub proof fn valid_numbers_are_in_range(threshold: u32, gates: Gates)
    ensures
        numbers_are_valid(threshold, gates) <==> {
            &&& threshold <= 0x3f80_0000 || threshold == 0x8000_0000
            &&& gates.min_face_iou <= 0x3ff0_0000_0000_0000 || gates.min_face_iou
                == 0x8000_0000_0000_0000
            &&& gates.min_embedding_cosine <= 0x3ff0_0000_0000_0000 || gates.min_embedding_cosine
                == 0x8000_0000_0000_0000
            &&& gates.max_detector_score_drift < 0x7ff0_0000_0000_0000
                || gates.max_detector_score_drift == 0x8000_0000_0000_0000
            &&& gates.max_landmark_rmse < 0x7ff0_0000_0000_0000 || gates.max_landmark_rmse
                == 0x8000_0000_0000_0000
            &&& gates.max_enrolled_score_drift < 0x7ff0_0000_0000_0000
                || gates.max_enrolled_score_drift == 0x8000_0000_0000_0000
        },
{
    let one: u64 = gates.min_face_iou;
    let two: u64 = gates.min_embedding_cosine;
    let three: u64 = gates.max_detector_score_drift;
    let four: u64 = gates.max_landmark_rmse;
    let five: u64 = gates.max_enrolled_score_drift;
    finite_bits(one);
    finite_bits(two);
    finite_bits(three);
    finite_bits(four);
    finite_bits(five);
    assert(threshold < 0x8000_0000 ==> ((threshold / 0x80_0000) % 256 != 255 <==> threshold
        < 0x7f80_0000)) by (bit_vector);
    assert((0x8000_0000u32 / 0x80_0000) % 256 != 255) by (bit_vector);
    assert((0x3f80_0000u32 / 0x80_0000) % 256 != 255) by (bit_vector);
}

proof fn finite_bits(bits: u64)
    ensures
        bits < 0x8000_0000_0000_0000 ==> (finite64(bits) <==> bits < 0x7ff0_0000_0000_0000),
        finite64(0x8000_0000_0000_0000),
        finite64(0x3ff0_0000_0000_0000),
        finite64(0),
{
    assert(bits < 0x8000_0000_0000_0000 ==> ((bits / 0x10_0000_0000_0000) % 2048 != 2047 <==> bits
        < 0x7ff0_0000_0000_0000)) by (bit_vector);
    assert((0x8000_0000_0000_0000u64 / 0x10_0000_0000_0000) % 2048 != 2047) by (bit_vector);
    assert((0x3ff0_0000_0000_0000u64 / 0x10_0000_0000_0000) % 2048 != 2047) by (bit_vector);
}

/// A configuration's paths are accepted exactly where all of them stay within the
/// experiment, the two outputs differ, and neither is an input or lies among the
/// pictures.
pub proof fn accepted_paths_are_apart(config: ParentConfig)
    ensures
        paths_error(config) is None <==> {
            &&& contained_path(config.fixture_dir@) && contained_path(config.manifest@)
            &&& contained_path(config.detector_model@) && contained_path(config.recognizer_model@)
            &&& contained_path(config.result@)
            &&& config.enrolled_model matches Some(path) ==> contained_path(path@)
            &&& config.diagnostics matches Some(path) ==> contained_path(path@) && !same_path(
                path@,
                config.result@,
            )
            &&& !lies_below(config.result@, config.fixture_dir@)
            &&& !same_path(config.result@, config.manifest@)
            &&& !same_path(config.result@, config.detector_model@)
            &&& !same_path(config.result@, config.recognizer_model@)
            &&& config.enrolled_model matches Some(path) ==> !same_path(path@, config.result@)
            &&& config.diagnostics matches Some(output) ==> {
                &&& !lies_below(output@, config.fixture_dir@)
                &&& !same_path(output@, config.manifest@)
                &&& !same_path(output@, config.detector_model@)
                &&& !same_path(output@, config.recognizer_model@)
                &&& config.enrolled_model matches Some(path) ==> !same_path(path@, output@)
            }
        },
{
}


/// A version is overridden by three numbers of one to three digits, with dots between
/// them, and by nothing else.
pub proof fn overrides_are_three_numbers(text: Seq<char>)
    ensures
        is_hsa_override(text) <==> exists|major: Seq<char>, minor: Seq<char>, step: Seq<char>|
            is_short_number(major) && is_short_number(minor) && is_short_number(step) && text
                == #[trigger] dotted(major, minor, step),
{
    if is_hsa_override(text) {
        let (first, second) = choose|first: int, second: int| #[trigger]
            is_divided(text, first, second);
        let major = text.subrange(0, first);
        let minor = text.subrange(first + 1, second);
        let step = text.subrange(second + 1, text.len() as int);
        assert(text =~= dotted(major, minor, step));
        assert(is_short_number(major) && is_short_number(minor) && is_short_number(step));
    }
    if exists|major: Seq<char>, minor: Seq<char>, step: Seq<char>|
        is_short_number(major) && is_short_number(minor) && is_short_number(step) && text
            == #[trigger] dotted(major, minor, step) {
        let (major, minor, step) = choose|major: Seq<char>, minor: Seq<char>, step: Seq<char>|
            is_short_number(major) && is_short_number(minor) && is_short_number(step) && text
                == #[trigger] dotted(major, minor, step);
        let first = major.len() as int;
        let second = first + 1 + minor.len();
        assert(text.subrange(0, first) =~= major);
        assert(text.subrange(first + 1, second) =~= minor);
        assert(text.subrange(second + 1, text.len() as int) =~= step);
        assert(text[first] == '.' && text[second] == '.');
        assert(is_component(major) && is_component(minor) && is_component(step));
        assert(is_divided(text, first, second));
    }
}

/// One to three decimal digits.
pub open spec fn is_short_number(text: Seq<char>) -> bool {
    &&& text.len() == 1 || text.len() == 2 || text.len() == 3
    &&& forall|i: int| 0 <= i < text.len() ==> '0' <= #[trigger] text[i] <= '9'
}

/// Three texts with dots between them.
pub open spec fn dotted(major: Seq<char>, minor: Seq<char>, step: Seq<char>) -> Seq<char> {
    major + seq!['.'] + minor + seq!['.'] + step
}

/// In a token stand letters and digits of the alphabet, dots, and, where more than dots
/// may stand, underscores, hyphens and colons.
pub proof fn tokens_have_plain_characters(character: char, dots_only: bool)
    ensures
        token_char(character, dots_only) <==> {
            let code = character as u32;
            ||| 48 <= code <= 57
            ||| 97 <= code <= 122
            ||| 65 <= code <= 90
            ||| code == 46
            ||| !dots_only && (code == 95 || code == 45 || code == 58)
        },
{
}

} // verus!
