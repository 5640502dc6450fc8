//! The two arms of the precision experiment and the surroundings that their
//! workers run in.
use crate::fp16_args::ParentConfig;
use crate::text::{bytes_eq, chars_of, decode_lossy, lossy_text, str_eq, string_of};
use vstd::prelude::*;
use vstd::string::*;
use vstd::utf8::*;

verus! {

#[derive(Clone, Copy, Debug, PartialEq, Eq, Structural)]
pub enum Precision {
    Fp32,
    Fp16,
}

impl Precision {
    pub open spec fn text(self) -> Seq<char> {
        match self {
            Precision::Fp32 => "fp32"@,
            Precision::Fp16 => "fp16"@,
        }
    }

    pub fn name(self) -> (name: &'static str)
        ensures
            name@ == self.text(),
    {
        match self {
            Precision::Fp32 => "fp32",
            Precision::Fp16 => "fp16",
        }
    }

    /// Whether half precision is switched on.
    pub fn fp16(self) -> (enabled: bool)
        ensures
            enabled == (self == Precision::Fp16),
    {
        self == Precision::Fp16
    }
}

#[derive(Clone, Copy, Debug, PartialEq, Eq, Structural)]
pub enum WorkerPhase {
    CacheGeneration,
    LoadedCacheMeasurement,
}

pub open spec fn phase_text(phase: WorkerPhase) -> Seq<char> {
    match phase {
        WorkerPhase::CacheGeneration => "generate"@,
        WorkerPhase::LoadedCacheMeasurement => "measure"@,
    }
}

pub fn phase_name(phase: WorkerPhase) -> (name: &'static str)
    ensures
        name@ == phase_text(phase),
{
    match phase {
        WorkerPhase::CacheGeneration => "generate",
        WorkerPhase::LoadedCacheMeasurement => "measure",
    }
}

/// The arm of a pair that comes first or second: pairs take turns.
pub open spec fn arm_at(pair: nat, position: int) -> Precision {
    if (pair % 2 == 0) == (position == 0) {
        Precision::Fp32
    } else {
        Precision::Fp16
    }
}

/// The order in which the arms of a pair run.
pub fn pair_order(index: usize) -> (order: [Precision; 2])
    ensures
        order@ == seq![arm_at(index as nat, 0), arm_at(index as nat, 1)],
{
    let order = if index % 2 == 0 {
        [Precision::Fp32, Precision::Fp16]
    } else {
        [Precision::Fp16, Precision::Fp32]
    };
    assert(order@ =~= seq![arm_at(index as nat, 0), arm_at(index as nat, 1)]);
    order
}

/// Each pair runs both arms, and the next pair runs them the other way round.
pub proof fn pairs_alternate(pair: nat)
    ensures
        arm_at(pair, 0) != arm_at(pair, 1),
        arm_at(pair + 1, 0) == arm_at(pair, 1),
        arm_at(pair + 1, 1) == arm_at(pair, 0),
{
}

/// One variable of an environment.
#[derive(Debug)]
pub struct Variable {
    pub key: String,
    pub value: String,
}

/// The variables that a worker's environment must hold, by key in order, and
/// those that it must not.
#[derive(Debug)]
pub struct EnvironmentAttestation {
    pub set: Vec<Variable>,
    pub cleared: Vec<String>,
}

pub open spec fn variable_views(variables: Seq<Variable>) -> Seq<(Seq<char>, Seq<char>)> {
    variables.map_values(|variable: Variable| (variable.key@, variable.value@))
}

pub open spec fn text_views(texts: Seq<String>) -> Seq<Seq<char>> {
    texts.map_values(|text: String| text@)
}

/// The variables of a worker: fixed paths and locale, one target version, and
/// every precision control off but the one that the arm is about.
pub open spec fn reviewed_set(precision: Precision, hsa: Seq<char>) -> Seq<(Seq<char>, Seq<char>)> {
    seq![
        ("HSA_OVERRIDE_GFX_VERSION"@, hsa),
        ("LANG"@, "C"@),
        ("LC_ALL"@, "C"@),
        ("ORT_MIGRAPHX_BF16_ENABLE"@, "0"@),
        ("ORT_MIGRAPHX_CACHE_PATH"@, "/proc/self/fd/4"@),
        ("ORT_MIGRAPHX_DUMP_MODEL"@, "0"@),
        ("ORT_MIGRAPHX_EXHAUSTIVE_TUNE"@, "0"@),
        (
            "ORT_MIGRAPHX_FP16_ENABLE"@,
            if precision == Precision::Fp16 {
                "1"@
            } else {
                "0"@
            },
        ),
        ("ORT_MIGRAPHX_FP8_ENABLE"@, "0"@),
        ("ORT_MIGRAPHX_INT8_ENABLE"@, "0"@),
        ("ORT_MIGRAPHX_MODEL_CACHE_PATH"@, "/proc/self/fd/4"@),
        ("PATH"@, "/usr/bin:/bin"@),
        ("RUST_LOG"@, "warn"@),
    ]
}

/// The variables that would change what a worker compiles or loads.
pub open spec fn reviewed_cleared() -> Seq<Seq<char>> {
    seq![
        "ORT_MIGRAPHX_SAVE_COMPILED_MODEL"@,
        "ORT_MIGRAPHX_LOAD_COMPILED_MODEL"@,
        "ORT_MIGRAPHX_SAVE_MODEL_PATH"@,
        "ORT_MIGRAPHX_LOAD_MODEL_PATH"@,
        "ORT_MIGRAPHX_INT8_CALIBRATION_TABLE_NAME"@,
        "ORT_MIGRAPHX_DUMP_EP_CONTEXT_MODEL"@,
        "MIGRAPHX_MLIR_DUMP"@,
        "MIGRAPHX_TRACE_COMPILE"@,
        "MIGRAPHX_TRACE_EVAL"@,
        "MIGRAPHX_TRACE_PASSES"@,
        "MIGRAPHX_ENABLE_MLIR"@,
        "MIGRAPHX_ENABLE_CK"@,
        "MIGRAPHX_ENABLE_HIPRTC_WORKAROUNDS"@,
    ]
}

fn push_variable(set: &mut Vec<Variable>, key: &str, value: &str)
    ensures
        variable_views(final(set)@) == variable_views(old(set)@).push((key@, value@)),
{
    set.push(Variable { key: key.to_owned(), value: value.to_owned() });
    assert(variable_views(set@) =~= variable_views(old(set)@).push((key@, value@)));
}

fn push_text(texts: &mut Vec<String>, text: &str)
    ensures
        text_views(final(texts)@) == text_views(old(texts)@).push(text@),
{
    texts.push(text.to_owned());
    assert(text_views(texts@) =~= text_views(old(texts)@).push(text@));
}

pub fn reviewed_environment(precision: Precision, hsa: &str) -> (environment: EnvironmentAttestation)
    ensures
        variable_views(environment.set@) == reviewed_set(precision, hsa@),
        text_views(environment.cleared@) == reviewed_cleared(),
{
    let mut set: Vec<Variable> = Vec::new();
    assert(variable_views(set@) =~= Seq::empty());
    push_variable(&mut set, "HSA_OVERRIDE_GFX_VERSION", hsa);
    push_variable(&mut set, "LANG", "C");
    push_variable(&mut set, "LC_ALL", "C");
    push_variable(&mut set, "ORT_MIGRAPHX_BF16_ENABLE", "0");
    push_variable(&mut set, "ORT_MIGRAPHX_CACHE_PATH", "/proc/self/fd/4");
    push_variable(&mut set, "ORT_MIGRAPHX_DUMP_MODEL", "0");
    push_variable(&mut set, "ORT_MIGRAPHX_EXHAUSTIVE_TUNE", "0");
    if precision.fp16() {
        push_variable(&mut set, "ORT_MIGRAPHX_FP16_ENABLE", "1");
    } else {
        push_variable(&mut set, "ORT_MIGRAPHX_FP16_ENABLE", "0");
    }
    push_variable(&mut set, "ORT_MIGRAPHX_FP8_ENABLE", "0");
    push_variable(&mut set, "ORT_MIGRAPHX_INT8_ENABLE", "0");
    push_variable(&mut set, "ORT_MIGRAPHX_MODEL_CACHE_PATH", "/proc/self/fd/4");
    push_variable(&mut set, "PATH", "/usr/bin:/bin");
    push_variable(&mut set, "RUST_LOG", "warn");
    assert(variable_views(set@) =~= reviewed_set(precision, hsa@));
    let mut cleared: Vec<String> = Vec::new();
    assert(text_views(cleared@) =~= Seq::empty());
    push_text(&mut cleared, "ORT_MIGRAPHX_SAVE_COMPILED_MODEL");
    push_text(&mut cleared, "ORT_MIGRAPHX_LOAD_COMPILED_MODEL");
    push_text(&mut cleared, "ORT_MIGRAPHX_SAVE_MODEL_PATH");
    push_text(&mut cleared, "ORT_MIGRAPHX_LOAD_MODEL_PATH");
    push_text(&mut cleared, "ORT_MIGRAPHX_INT8_CALIBRATION_TABLE_NAME");
    push_text(&mut cleared, "ORT_MIGRAPHX_DUMP_EP_CONTEXT_MODEL");
    push_text(&mut cleared, "MIGRAPHX_MLIR_DUMP");
    push_text(&mut cleared, "MIGRAPHX_TRACE_COMPILE");
    push_text(&mut cleared, "MIGRAPHX_TRACE_EVAL");
    push_text(&mut cleared, "MIGRAPHX_TRACE_PASSES");
    push_text(&mut cleared, "MIGRAPHX_ENABLE_MLIR");
    push_text(&mut cleared, "MIGRAPHX_ENABLE_CK");
    push_text(&mut cleared, "MIGRAPHX_ENABLE_HIPRTC_WORKAROUNDS");
    assert(text_views(cleared@) =~= reviewed_cleared());
    EnvironmentAttestation { set, cleared }
}

/// One variable as the system reports it.
#[derive(Debug)]
pub struct ActualVariable {
    pub key: Vec<u8>,
    pub value: Vec<u8>,
}

pub open spec fn actual_views(variables: Seq<ActualVariable>) -> Seq<(Seq<u8>, Seq<u8>)> {
    variables.map_values(|variable: ActualVariable| (variable.key@, variable.value@))
}

/// The value of a variable: that of its first occurrence.
pub open spec fn found_value(actual: Seq<(Seq<u8>, Seq<u8>)>, key: Seq<u8>) -> Option<Seq<u8>>
    decreases actual.len(),
{
    if actual.len() == 0 {
        None
    } else if actual[0].0 == key {
        Some(actual[0].1)
    } else {
        found_value(actual.skip(1), key)
    }
}

#[derive(Clone, Copy, Debug, PartialEq, Eq, Structural)]
pub enum EnvironmentError {
    AttestationMismatch,
    ClearanceMismatch,
    NotHermetic,
}

/// Whether an environment may hold a key: it is attested, or it is the one that
/// carries the worker's capability.
pub open spec fn allowed_key(set: Seq<(Seq<char>, Seq<char>)>, key: Seq<char>) -> bool {
    key == "HOWY_FP16_CAPABILITY"@ || exists|i: int| 0 <= i < set.len() && #[trigger] set[i].0 == key
}

/// Every attested variable has its value.
pub open spec fn all_attested(
    set: Seq<(Seq<char>, Seq<char>)>,
    actual: Seq<(Seq<u8>, Seq<u8>)>,
) -> bool {
    forall|i: int|
        0 <= i < set.len() ==> found_value(actual, encode_utf8((#[trigger] set[i]).0)) == Some(
            encode_utf8(set[i].1),
        )
}

/// No variable that must be absent is present.
pub open spec fn all_cleared(cleared: Seq<Seq<char>>, actual: Seq<(Seq<u8>, Seq<u8>)>) -> bool {
    forall|i: int|
        0 <= i < cleared.len() ==> found_value(actual, encode_utf8(#[trigger] cleared[i])) is None
}

/// Nothing is present but what may be.
pub open spec fn is_hermetic(
    set: Seq<(Seq<char>, Seq<char>)>,
    actual: Seq<(Seq<u8>, Seq<u8>)>,
) -> bool {
    forall|i: int|
        0 <= i < actual.len() ==> allowed_key(set, lossy_text((#[trigger] actual[i]).0))
}

fn find_value<'a>(actual: &'a Vec<ActualVariable>, key: &[u8]) -> (value: Option<&'a [u8]>)
    ensures
        match value {
            Some(bytes) => found_value(actual_views(actual@), key@) == Some(bytes@),
            None => found_value(actual_views(actual@), key@) is None,
        },
{
    let ghost all = actual_views(actual@);
    let mut index: usize = 0;
    assert(all.skip(0) =~= all);
    while index < actual.len()
        invariant
            index <= actual@.len(),
            all == actual_views(actual@),
            found_value(all, key@) == found_value(all.skip(index as int), key@),
        decreases actual.len() - index,
    {
        assert(all.skip(index as int)[0] == all[index as int]);
        assert(all.skip(index as int).skip(1) =~= all.skip(index + 1));
        if bytes_eq(actual[index].key.as_slice(), key) {
            return Some(actual[index].value.as_slice());
        }
        index = index + 1;
    }
    None
}

fn key_is_allowed(set: &Vec<Variable>, key: &str) -> (allowed: bool)
    ensures
        allowed == allowed_key(variable_views(set@), key@),
{
    if str_eq(key, "HOWY_FP16_CAPABILITY") {
        return true;
    }
    let mut index: usize = 0;
    while index < set.len()
        invariant
            index <= set@.len(),
            forall|i: int| 0 <= i < index ==> #[trigger] variable_views(set@)[i].0 != key@,
        decreases set.len() - index,
    {
        if str_eq(set[index].key.as_str(), key) {
            assert(variable_views(set@)[index as int].0 == key@);
            return true;
        }
        index = index + 1;
    }
    false
}

/// Whether a worker's actual environment is the one that was attested.
pub fn validate_actual_environment(
    expected: &EnvironmentAttestation,
    actual: &Vec<ActualVariable>,
) -> (result: Result<(), EnvironmentError>)
    ensures
        ({
            let set = variable_views(expected.set@);
            let present = actual_views(actual@);
            result == (if !all_attested(set, present) {
                Err(EnvironmentError::AttestationMismatch)
            } else if !all_cleared(text_views(expected.cleared@), present) {
                Err(EnvironmentError::ClearanceMismatch)
            } else if !is_hermetic(set, present) {
                Err(EnvironmentError::NotHermetic)
            } else {
                Ok(())
            })
        }),
{
    let ghost set = variable_views(expected.set@);
    let ghost present = actual_views(actual@);
    let ghost cleared = text_views(expected.cleared@);
    let mut index: usize = 0;
    while index < expected.set.len()
        invariant
            index <= expected.set@.len(),
            set == variable_views(expected.set@),
            present == actual_views(actual@),
            forall|i: int|
                0 <= i < index ==> found_value(present, encode_utf8((#[trigger] set[i]).0)) == Some(
                    encode_utf8(set[i].1),
                ),
        decreases expected.set.len() - index,
    {
        let variable = &expected.set[index];
        assert(set[index as int] == (variable.key@, variable.value@));
        let matches = match find_value(actual, variable.key.as_str().as_bytes()) {
            Some(value) => bytes_eq(value, variable.value.as_str().as_bytes()),
            None => false,
        };
        if !matches {
            assert(!all_attested(set, present));
            return Err(EnvironmentError::AttestationMismatch);
        }
        index = index + 1;
    }
    let mut at: usize = 0;
    while at < expected.cleared.len()
        invariant
            at <= expected.cleared@.len(),
            present == actual_views(actual@),
            set == variable_views(expected.set@),
            cleared == text_views(expected.cleared@),
            all_attested(set, present),
            forall|i: int|
                0 <= i < at ==> found_value(present, encode_utf8(#[trigger] cleared[i])) is None,
        decreases expected.cleared.len() - at,
    {
        assert(cleared[at as int] == expected.cleared@[at as int]@);
        if find_value(actual, expected.cleared[at].as_str().as_bytes()).is_some() {
            assert(!all_cleared(cleared, present));
            return Err(EnvironmentError::ClearanceMismatch);
        }
        at = at + 1;
    }
    let mut next: usize = 0;
    while next < actual.len()
        invariant
            next <= actual@.len(),
            present == actual_views(actual@),
            set == variable_views(expected.set@),
            cleared == text_views(expected.cleared@),
            all_attested(set, present),
            all_cleared(cleared, present),
            forall|i: int|
                0 <= i < next ==> allowed_key(set, lossy_text((#[trigger] present[i]).0)),
        decreases actual.len() - next,
    {
        assert(present[next as int].0 == actual@[next as int].key@);
        let key = decode_lossy(actual[next].key.as_slice());
        if !key_is_allowed(&expected.set, key.as_str()) {
            assert(!is_hermetic(set, present));
            return Err(EnvironmentError::NotHermetic);
        }
        next = next + 1;
    }
    Ok(())
}

/// The variables that a worker is started with, and no others: its capability
/// and what is attested. What must be absent is left out even where it is
/// attested.
pub open spec fn started_with(
    capability: Seq<char>,
    set: Seq<(Seq<char>, Seq<char>)>,
    cleared: Seq<Seq<char>>,
) -> Seq<(Seq<char>, Seq<char>)> {
    seq![("HOWY_FP16_CAPABILITY"@, capability)].add(set).filter(
        |variable: (Seq<char>, Seq<char>)| !cleared.contains(variable.0),
    )
}

fn text_occurs(texts: &Vec<String>, text: &str) -> (found: bool)
    ensures
        found == text_views(texts@).contains(text@),
{
    let mut index: usize = 0;
    while index < texts.len()
        invariant
            index <= texts@.len(),
            forall|i: int| 0 <= i < index ==> #[trigger] text_views(texts@)[i] != text@,
        decreases texts.len() - index,
    {
        if str_eq(texts[index].as_str(), text) {
            assert(text_views(texts@)[index as int] == text@);
            return true;
        }
        index = index + 1;
    }
    false
}

/// What a worker's environment is made of.
pub fn configure_worker_environment(
    capability: &str,
    environment: &EnvironmentAttestation,
) -> (variables: Vec<Variable>)
    ensures
        variable_views(variables@) == started_with(
            capability@,
            variable_views(environment.set@),
            text_views(environment.cleared@),
        ),
{
    let ghost set = variable_views(environment.set@);
    let ghost cleared = text_views(environment.cleared@);
    let ghost keep = |variable: (Seq<char>, Seq<char>)| !cleared.contains(variable.0);
    let ghost all = seq![("HOWY_FP16_CAPABILITY"@, capability@)].add(set);
    let mut variables: Vec<Variable> = Vec::new();
    assert(variable_views(variables@) =~= Seq::empty());
    proof {
        reveal(Seq::filter);
        assert(all.take(1).drop_last() =~= Seq::empty());
        assert(all.take(1).last() == ("HOWY_FP16_CAPABILITY"@, capability@));
        assert(all.take(1).drop_last().filter(keep) =~= Seq::empty());
    }
    if !text_occurs(&environment.cleared, "HOWY_FP16_CAPABILITY") {
        push_variable(&mut variables, "HOWY_FP16_CAPABILITY", capability);
    }
    let mut index: usize = 0;
    while index < environment.set.len()
        invariant
            index <= environment.set@.len(),
            set == variable_views(environment.set@),
            cleared == text_views(environment.cleared@),
            keep == |variable: (Seq<char>, Seq<char>)| !cleared.contains(variable.0),
            all == seq![("HOWY_FP16_CAPABILITY"@, capability@)].add(set),
            variable_views(variables@) == all.take(1 + index).filter(keep),
        decreases environment.set.len() - index,
    {
        let variable = &environment.set[index];
        let ghost longer = all.take(2 + index);
        proof {
            reveal(Seq::filter);
            assert(longer.drop_last() =~= all.take(1 + index));
            assert(longer.last() == set[index as int]);
            assert(set[index as int] == (variable.key@, variable.value@));
        }
        if !text_occurs(&environment.cleared, variable.key.as_str()) {
            push_variable(&mut variables, variable.key.as_str(), variable.value.as_str());
        }
        index = index + 1;
    }
    assert(all.take(1 + set.len() as int) =~= all);
    variables
}

/// Whether `needle` stands at the start of `text`.
pub open spec fn begins(text: Seq<char>, needle: Seq<char>) -> bool {
    needle.len() <= text.len() && text.take(needle.len() as int) == needle
}

/// `text` with every occurrence of `needle`, from the left and not overlapping,
/// replaced. The empty needle occurs before and behind every character.
pub open spec fn replaced(text: Seq<char>, needle: Seq<char>, with: Seq<char>) -> Seq<char>
    decreases text.len(),
{
    if needle.len() == 0 {
        if text.len() == 0 {
            with
        } else {
            with + seq![text[0]] + replaced(text.skip(1), needle, with)
        }
    } else if text.len() == 0 {
        text
    } else if begins(text, needle) {
        with + replaced(text.skip(needle.len() as int), needle, with)
    } else {
        seq![text[0]] + replaced(text.skip(1), needle, with)
    }
}

fn occurs_here(text: &Vec<char>, at: usize, needle: &Vec<char>) -> (found: bool)
    requires
        at <= text@.len(),
    ensures
        found == begins(text@.skip(at as int), needle@),
{
    if needle.len() > text.len() - at {
        return false;
    }
    let ghost rest = text@.skip(at as int);
    let count: usize = text.len();
    let mut index: usize = 0;
    while index < needle.len()
        invariant
            index <= needle@.len(),
            count == text@.len(),
            at + needle@.len() <= count,
            rest == text@.skip(at as int),
            forall|i: int| 0 <= i < index ==> #[trigger] rest[i] == needle@[i],
        decreases needle.len() - index,
    {
        assert(rest[index as int] == text@[at + index]);
        if text[at + index] != needle[index] {
            assert(rest.take(needle@.len() as int)[index as int] != needle@[index as int]);
            return false;
        }
        index = index + 1;
    }
    assert(rest.take(needle@.len() as int) =~= needle@);
    true
}

/// Replaces every occurrence of a piece of text.
pub fn replace_all(text: &str, needle: &str, with: &str) -> (result: String)
    ensures
        result@ == replaced(text@, needle@, with@),
{
    let characters = chars_of(text);
    let pattern = chars_of(needle);
    let replacement = chars_of(with);
    let mut output: Vec<char> = Vec::new();
    let mut at: usize = 0;
    assert(characters@.skip(0) =~= characters@);
    while at < characters.len()
        invariant
            at <= characters@.len(),
            characters@ == text@,
            pattern@ == needle@,
            replacement@ == with@,
            output@ + replaced(characters@.skip(at as int), needle@, with@) == replaced(
                text@,
                needle@,
                with@,
            ),
        decreases characters.len() - at,
    {
        let ghost rest = characters@.skip(at as int);
        let ghost before = output@;
        assert(rest[0] == characters@[at as int]);
        assert(rest.skip(1) =~= characters@.skip(at + 1));
        if pattern.len() == 0 {
            output.extend_from_slice(replacement.as_slice());
            output.push(characters[at]);
            at = at + 1;
            assert(output@ =~= before + with@ + seq![rest[0]]);
            assert(output@ + replaced(characters@.skip(at as int), needle@, with@) =~= before
                + replaced(rest, needle@, with@));
        } else if occurs_here(&characters, at, &pattern) {
            assert(rest.skip(needle@.len() as int) =~= characters@.skip(at + needle@.len()));
            output.extend_from_slice(replacement.as_slice());
            at = at + pattern.len();
            assert(output@ =~= before + with@);
            assert(output@ + replaced(characters@.skip(at as int), needle@, with@) =~= before
                + replaced(rest, needle@, with@));
        } else {
            output.push(characters[at]);
            at = at + 1;
            assert(output@ =~= before + seq![rest[0]]);
            assert(output@ + replaced(characters@.skip(at as int), needle@, with@) =~= before
                + replaced(rest, needle@, with@));
        }
    }
    let ghost before = output@;
    assert(characters@.skip(at as int) =~= Seq::empty());
    if pattern.len() == 0 {
        output.extend_from_slice(replacement.as_slice());
        assert(output@ =~= before + with@);
    } else {
        assert(before + Seq::<char>::empty() =~= before);
    }
    string_of(output.as_slice())
}

/// A diagnostic without one path.
pub open spec fn without(text: Seq<char>, path: Seq<u8>) -> Seq<char> {
    replaced(text, lossy_text(path), "<redacted-path>"@)
}

pub open spec fn without_optional(text: Seq<char>, path: Option<Vec<u8>>) -> Seq<char> {
    match path {
        Some(bytes) => without(text, bytes@),
        None => text,
    }
}

fn redact(text: &str, path: &[u8]) -> (redacted: String)
    ensures
        redacted@ == without(text@, path@),
{
    let shown = decode_lossy(path);
    replace_all(text, shown.as_str(), "<redacted-path>")
}

fn redact_optional(text: &str, path: &Option<Vec<u8>>) -> (redacted: String)
    ensures
        redacted@ == without_optional(text@, *path),
{
    match path {
        Some(bytes) => redact(text, bytes.as_slice()),
        None => text.to_owned(),
    }
}

/// A diagnostic without the paths of the run that it is about.
pub fn redact_diagnostic(detail: &str, config: &ParentConfig) -> (redacted: String)
    ensures
        redacted@ == without_optional(
            without(
                without_optional(
                    without(
                        without(
                            without(
                                without(
                                    without(detail@, config.experiment_root@),
                                    config.fixture_dir@,
                                ),
                                config.manifest@,
                            ),
                            config.detector_model@,
                        ),
                        config.recognizer_model@,
                    ),
                    config.enrolled_model,
                ),
                config.result@,
            ),
            config.diagnostics,
        ),
{
    let mut text = redact(detail, config.experiment_root.as_slice());
    text = redact(text.as_str(), config.fixture_dir.as_slice());
    text = redact(text.as_str(), config.manifest.as_slice());
    text = redact(text.as_str(), config.detector_model.as_slice());
    text = redact(text.as_str(), config.recognizer_model.as_slice());
    text = redact_optional(text.as_str(), &config.enrolled_model);
    text = redact(text.as_str(), config.result.as_slice());
    redact_optional(text.as_str(), &config.diagnostics)
}


/// A variable's value is that of its first entry, and there is none exactly where no
/// entry has its name.
pub proof fn first_entries_count(actual: Seq<(Seq<u8>, Seq<u8>)>, key: Seq<u8>)
    ensures
        found_value(actual, key) is None <==> forall|i: int|
            0 <= i < actual.len() ==> (#[trigger] actual[i]).0 != key,
        found_value(actual, key) is Some ==> exists|at: int|
            0 <= at < actual.len() && (#[trigger] actual[at]).0 == key && found_value(actual, key)
                == Some(actual[at].1) && forall|i: int|
                0 <= i < at ==> (#[trigger] actual[i]).0 != key,
    decreases actual.len(),
{
    if actual.len() > 0 && actual[0].0 != key {
        let rest = actual.skip(1);
        first_entries_count(rest, key);
        if found_value(rest, key) is None {
            assert forall|i: int| 0 <= i < actual.len() implies (#[trigger] actual[i]).0 != key by {
                if i > 0 {
                    assert(rest[i - 1] == actual[i]);
                }
            }
        } else {
            let at = choose|at: int|
                0 <= at < rest.len() && (#[trigger] rest[at]).0 == key && found_value(rest, key)
                    == Some(rest[at].1) && forall|i: int|
                    0 <= i < at ==> (#[trigger] rest[i]).0 != key;
            assert(actual[at + 1] == rest[at]);
            assert forall|i: int| 0 <= i < at + 1 implies (#[trigger] actual[i]).0 != key by {
                if i > 0 {
                    assert(rest[i - 1] == actual[i]);
                }
            }
        }
    }
}

/// An environment in which no name occurs twice is accepted exactly where it holds every
/// reviewed variable with its value, none that had to be cleared, and besides these only
/// the capability.
pub proof fn accepted_environments_hold_the_reviewed_variables(
    set: Seq<(Seq<char>, Seq<char>)>,
    cleared: Seq<Seq<char>>,
    actual: Seq<(Seq<u8>, Seq<u8>)>,
)
    requires
        forall|i: int, j: int|
            0 <= i < j < actual.len() ==> (#[trigger] actual[i]).0 != (#[trigger] actual[j]).0,
    ensures
        all_attested(set, actual) <==> forall|n: int|
            0 <= n < set.len() ==> actual.contains(
                (encode_utf8((#[trigger] set[n]).0), encode_utf8(set[n].1)),
            ),
        all_cleared(cleared, actual) <==> forall|n: int, i: int|
            0 <= n < cleared.len() && 0 <= i < actual.len() ==> (#[trigger] actual[i]).0
                != encode_utf8(#[trigger] cleared[n]),
        is_hermetic(set, actual) <==> forall|i: int|
            0 <= i < actual.len() ==> {
                ||| lossy_text((#[trigger] actual[i]).0) == "HOWY_FP16_CAPABILITY"@
                ||| exists|n: int|
                    0 <= n < set.len() && (#[trigger] set[n]).0 == lossy_text(actual[i].0)
            },
{
    assert forall|n: int| 0 <= n < set.len() implies (found_value(
        actual,
        encode_utf8((#[trigger] set[n]).0),
    ) == Some(encode_utf8(set[n].1)) <==> actual.contains(
        (encode_utf8(set[n].0), encode_utf8(set[n].1)),
    )) by {
        let key = encode_utf8(set[n].0);
        let value = encode_utf8(set[n].1);
        first_entries_count(actual, key);
        if found_value(actual, key) == Some(value) {
            let at = choose|at: int|
                0 <= at < actual.len() && (#[trigger] actual[at]).0 == key && found_value(
                    actual,
                    key,
                ) == Some(actual[at].1) && forall|i: int|
                    0 <= i < at ==> (#[trigger] actual[i]).0 != key;
            assert(actual[at] == (key, value));
        }
        if actual.contains((key, value)) {
            let k = actual.index_of((key, value));
            assert(actual[k].0 == key);
            let at = choose|at: int|
                0 <= at < actual.len() && (#[trigger] actual[at]).0 == key && found_value(
                    actual,
                    key,
                ) == Some(actual[at].1) && forall|i: int|
                    0 <= i < at ==> (#[trigger] actual[i]).0 != key;
            assert(at == k);
        }
    }
    assert forall|n: int| 0 <= n < cleared.len() implies (found_value(
        actual,
        encode_utf8(#[trigger] cleared[n]),
    ) is None <==> forall|i: int|
        0 <= i < actual.len() ==> (#[trigger] actual[i]).0 != encode_utf8(cleared[n])) by {
        first_entries_count(actual, encode_utf8(cleared[n]));
    }
    if all_cleared(cleared, actual) {
        assert forall|n: int, i: int| 0 <= n < cleared.len() && 0 <= i < actual.len() implies (
        #[trigger] actual[i]).0 != encode_utf8(#[trigger] cleared[n]) by {
            assert(found_value(actual, encode_utf8(cleared[n])) is None);
        }
    }
}

/// The reviewed environments of both arms say the same but for the one switch, which is
/// on for half precision and off for single; all other switches are off.
pub proof fn arms_differ_in_one_switch(hsa: Seq<char>)
    ensures
        reviewed_set(Precision::Fp32, hsa).len() == 13,
        reviewed_set(Precision::Fp16, hsa) == reviewed_set(Precision::Fp32, hsa).update(
            7,
            ("ORT_MIGRAPHX_FP16_ENABLE"@, "1"@),
        ),
        reviewed_set(Precision::Fp32, hsa)[7] == ("ORT_MIGRAPHX_FP16_ENABLE"@, "0"@),
        reviewed_set(Precision::Fp32, hsa)[0] == ("HSA_OVERRIDE_GFX_VERSION"@, hsa),
        reviewed_set(Precision::Fp32, hsa)[1] == ("LANG"@, "C"@),
        reviewed_set(Precision::Fp32, hsa)[2] == ("LC_ALL"@, "C"@),
        reviewed_set(Precision::Fp32, hsa)[3] == ("ORT_MIGRAPHX_BF16_ENABLE"@, "0"@),
        reviewed_set(Precision::Fp32, hsa)[4] == ("ORT_MIGRAPHX_CACHE_PATH"@, "/proc/self/fd/4"@),
        reviewed_set(Precision::Fp32, hsa)[5] == ("ORT_MIGRAPHX_DUMP_MODEL"@, "0"@),
        reviewed_set(Precision::Fp32, hsa)[6] == ("ORT_MIGRAPHX_EXHAUSTIVE_TUNE"@, "0"@),
        reviewed_set(Precision::Fp32, hsa)[8] == ("ORT_MIGRAPHX_FP8_ENABLE"@, "0"@),
        reviewed_set(Precision::Fp32, hsa)[9] == ("ORT_MIGRAPHX_INT8_ENABLE"@, "0"@),
        reviewed_set(Precision::Fp32, hsa)[10] == (
            "ORT_MIGRAPHX_MODEL_CACHE_PATH"@,
            "/proc/self/fd/4"@,
        ),
        reviewed_set(Precision::Fp32, hsa)[11] == ("PATH"@, "/usr/bin:/bin"@),
        reviewed_set(Precision::Fp32, hsa)[12] == ("RUST_LOG"@, "warn"@),
        reviewed_cleared().len() == 13,
        reviewed_cleared().contains("ORT_MIGRAPHX_SAVE_COMPILED_MODEL"@),
        reviewed_cleared().contains("ORT_MIGRAPHX_LOAD_COMPILED_MODEL"@),
        reviewed_cleared().contains("ORT_MIGRAPHX_SAVE_MODEL_PATH"@),
        reviewed_cleared().contains("ORT_MIGRAPHX_LOAD_MODEL_PATH"@),
        reviewed_cleared().contains("ORT_MIGRAPHX_INT8_CALIBRATION_TABLE_NAME"@),
        reviewed_cleared().contains("ORT_MIGRAPHX_DUMP_EP_CONTEXT_MODEL"@),
        reviewed_cleared().contains("MIGRAPHX_MLIR_DUMP"@),
        reviewed_cleared().contains("MIGRAPHX_TRACE_COMPILE"@),
        reviewed_cleared().contains("MIGRAPHX_TRACE_EVAL"@),
        reviewed_cleared().contains("MIGRAPHX_TRACE_PASSES"@),
        reviewed_cleared().contains("MIGRAPHX_ENABLE_MLIR"@),
        reviewed_cleared().contains("MIGRAPHX_ENABLE_CK"@),
        reviewed_cleared().contains("MIGRAPHX_ENABLE_HIPRTC_WORKAROUNDS"@),
{
    let names = reviewed_cleared();
    assert(reviewed_set(Precision::Fp16, hsa) =~= reviewed_set(Precision::Fp32, hsa).update(
        7,
        ("ORT_MIGRAPHX_FP16_ENABLE"@, "1"@),
    ));
    assert(names.contains(names[0]) && names.contains(names[1]) && names.contains(names[2]));
    assert(names.contains(names[3]) && names.contains(names[4]) && names.contains(names[5]));
    assert(names.contains(names[6]) && names.contains(names[7]) && names.contains(names[8]));
    assert(names.contains(names[9]) && names.contains(names[10]) && names.contains(names[11]));
    assert(names.contains(names[12]));
}

/// A worker starts with the capability and with every reviewed variable that is not to
/// be cleared, and with nothing else.
pub proof fn workers_start_with_what_was_reviewed(
    capability: Seq<char>,
    set: Seq<(Seq<char>, Seq<char>)>,
    cleared: Seq<Seq<char>>,
    key: Seq<char>,
    value: Seq<char>,
)
    ensures
        started_with(capability, set, cleared).contains((key, value)) <==> !cleared.contains(key)
            && (set.contains((key, value)) || key == "HOWY_FP16_CAPABILITY"@ && value
            == capability),
{
    let kept = |variable: (Seq<char>, Seq<char>)| !cleared.contains(variable.0);
    let all = seq![("HOWY_FP16_CAPABILITY"@, capability)].add(set);
    let wanted = (key, value);
    broadcast use vstd::seq_lib::group_filter_ensures;

    if started_with(capability, set, cleared).contains(wanted) {
        let k = all.filter(kept).index_of(wanted);
        assert(all.filter(kept)[k] == wanted);
        assert(all.filter(kept).contains(wanted));
        all.lemma_filter_contains_rev(kept, wanted);
        let n = all.index_of(wanted);
        if n > 0 {
            assert(set[n - 1] == wanted);
        }
    }
    if !cleared.contains(key) {
        if set.contains(wanted) {
            let n = set.index_of(wanted);
            assert(all[n + 1] == wanted);
        } else if key == "HOWY_FP16_CAPABILITY"@ && value == capability {
            assert(all[0] == wanted);
        }
        assert(all.contains(wanted) ==> kept(wanted) && all.filter(kept).contains(wanted));
    }
}

/// A text stands in another at a place.
pub open spec fn stands_at(text: Seq<char>, needle: Seq<char>, at: int) -> bool {
    0 <= at && at + needle.len() <= text.len() && text.subrange(at, at + needle.len()) == needle
}

/// A text in which nothing is found stays as it is.
pub proof fn texts_without_a_find_stay(text: Seq<char>, needle: Seq<char>, with: Seq<char>)
    requires
        needle.len() > 0,
        forall|i: int| 0 <= i < text.len() ==> !#[trigger] stands_at(text, needle, i),
    ensures
        replaced(text, needle, with) == text,
    decreases text.len(),
{
    if text.len() > 0 {
        let rest = text.skip(1);
        assert(!stands_at(text, needle, 0));
        if needle.len() <= text.len() {
            assert(text.take(needle.len() as int) =~= text.subrange(0, needle.len() as int));
        }
        assert forall|i: int| 0 <= i < rest.len() implies !#[trigger] stands_at(
            rest,
            needle,
            i,
        ) by {
            assert(!stands_at(text, needle, i + 1));
            if i + needle.len() <= rest.len() {
                assert(rest.subrange(i, i + needle.len()) =~= text.subrange(
                    i + 1,
                    i + 1 + needle.len(),
                ));
            }
        }
        texts_without_a_find_stay(rest, needle, with);
        assert(seq![text[0]] + rest =~= text);
    }
}

/// The first that is found goes, what is before it stays, and what follows it is treated
/// in the same way.
pub proof fn first_finds_are_replaced(
    before: Seq<char>,
    needle: Seq<char>,
    after: Seq<char>,
    with: Seq<char>,
)
    requires
        needle.len() > 0,
        forall|i: int|
            0 <= i < before.len() ==> !#[trigger] stands_at(before + needle + after, needle, i),
    ensures
        replaced(before + needle + after, needle, with) == before + with + replaced(
            after,
            needle,
            with,
        ),
    decreases before.len(),
{
    let text = before + needle + after;
    if before.len() == 0 {
        assert(text.take(needle.len() as int) =~= needle);
        assert(text.skip(needle.len() as int) =~= after);
        assert(before + with + replaced(after, needle, with) =~= with + replaced(
            after,
            needle,
            with,
        ));
    } else {
        let rest = before.skip(1);
        let later = rest + needle + after;
        assert(text.skip(1) =~= later);
        assert(!stands_at(text, needle, 0));
        assert(text.take(needle.len() as int) =~= text.subrange(0, needle.len() as int));
        assert(!begins(text, needle));
        assert forall|i: int| 0 <= i < rest.len() implies !#[trigger] stands_at(
            later,
            needle,
            i,
        ) by {
            assert(!stands_at(text, needle, i + 1));
            assert(later.subrange(i, i + needle.len()) =~= text.subrange(
                i + 1,
                i + 1 + needle.len(),
            ));
        }
        first_finds_are_replaced(rest, needle, after, with);
        assert(seq![text[0]] + (rest + with + replaced(after, needle, with)) =~= before + with
            + replaced(after, needle, with));
    }
}

} // verus!
