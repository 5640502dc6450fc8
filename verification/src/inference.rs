//! What surrounds the inference runtime: provider plans, the shapes its outputs
//! must have, how much memory a pass takes, and which model files it may use.
use crate::digest::{absorb, absorbed, finish, new_hasher, sha256_of};
use crate::float_bits::{all_finite, values_are_finite};
use crate::mode1_key::{CredentialSourceIdentity, DescriptorIdentity};
use crate::startup::{normalize_provider, normalized};
use crate::text::{bytes_eq, decimal, push_decimal, str_eq};
use vstd::prelude::*;
use vstd::string::*;
use vstd::utf8::*;

verus! {

pub const SCRFD_ANCHORS_PER_CELL: usize = 2;

pub const SCRFD_OUTPUT_COUNT: usize = 9;

pub const FACE_EMBEDDING_DIM: usize = 512;

pub const MAX_RECOGNIZER_MODEL_BYTES: u64 = 201326592;

/// Opt-in profiling destinations, as path bytes, used by experiments only.
#[derive(Debug)]
pub struct InferenceProfiling {
    pub detector_path: Vec<u8>,
    pub recognizer_path: Vec<u8>,
    /// Precision pin for the provider that has one.
    pub migraphx_fp16: Option<bool>,
}

#[derive(Clone, Copy, Debug, PartialEq, Eq, Structural)]
pub enum ProviderKind {
    TensorRt,
    Cuda,
    Migraphx,
    OpenVino,
    Cpu,
}

impl ProviderKind {
    pub open spec fn text(self) -> Seq<char> {
        match self {
            ProviderKind::TensorRt => "tensorrt"@,
            ProviderKind::Cuda => "cuda"@,
            ProviderKind::Migraphx => "migraphx"@,
            ProviderKind::OpenVino => "openvino"@,
            ProviderKind::Cpu => "cpu"@,
        }
    }

    pub fn name(self) -> (name: &'static str)
        ensures
            name@ == self.text(),
    {
        match self {
            ProviderKind::TensorRt => "tensorrt",
            ProviderKind::Cuda => "cuda",
            ProviderKind::Migraphx => "migraphx",
            ProviderKind::OpenVino => "openvino",
            ProviderKind::Cpu => "cpu",
        }
    }
}

/// The providers that a configured name stands for; an unknown one is the CPU.
pub open spec fn named_providers(name: Seq<char>) -> Seq<ProviderKind> {
    if name == "auto"@ {
        seq![
            ProviderKind::TensorRt,
            ProviderKind::Cuda,
            ProviderKind::Migraphx,
            ProviderKind::OpenVino,
            ProviderKind::Cpu,
        ]
    } else if name == "tensorrt"@ {
        seq![ProviderKind::TensorRt]
    } else if name == "cuda"@ {
        seq![ProviderKind::Cuda]
    } else if name == "migraphx"@ {
        seq![ProviderKind::Migraphx]
    } else if name == "openvino"@ {
        seq![ProviderKind::OpenVino]
    } else {
        seq![ProviderKind::Cpu]
    }
}

/// The order in which providers are registered. With a fallback the CPU comes
/// last wherever it is missing; without one it is left out, unless the CPU is
/// what was asked for.
pub open spec fn provider_plan(provider: Seq<char>, register_cpu_fallback: bool) -> Seq<
    ProviderKind,
> {
    let named = named_providers(normalized(provider));
    if normalized(provider) == "cpu"@ {
        named
    } else if register_cpu_fallback {
        if named.last() == ProviderKind::Cpu {
            named
        } else {
            named.push(ProviderKind::Cpu)
        }
    } else if named.last() == ProviderKind::Cpu {
        named.drop_last()
    } else {
        named
    }
}

pub fn build_execution_providers(provider: &str, register_cpu_fallback: bool) -> (plan: Result<
    Vec<ProviderKind>,
    InferenceError,
>)
    ensures
        plan matches Ok(providers) && providers@ == provider_plan(provider@, register_cpu_fallback),
{
    let normal = normalize_provider(provider);
    let name = normal.as_str();
    let mut plan: Vec<ProviderKind> = Vec::new();
    if str_eq(name, "auto") {
        plan.push(ProviderKind::TensorRt);
        plan.push(ProviderKind::Cuda);
        plan.push(ProviderKind::Migraphx);
        plan.push(ProviderKind::OpenVino);
        plan.push(ProviderKind::Cpu);
    } else if str_eq(name, "tensorrt") {
        plan.push(ProviderKind::TensorRt);
    } else if str_eq(name, "cuda") {
        plan.push(ProviderKind::Cuda);
    } else if str_eq(name, "migraphx") {
        plan.push(ProviderKind::Migraphx);
    } else if str_eq(name, "openvino") {
        plan.push(ProviderKind::OpenVino);
    } else {
        plan.push(ProviderKind::Cpu);
    }
    assert(plan@ =~= named_providers(normalized(provider@)));
    if !str_eq(name, "cpu") {
        let ends_with_cpu = plan[plan.len() - 1] == ProviderKind::Cpu;
        if register_cpu_fallback && !ends_with_cpu {
            plan.push(ProviderKind::Cpu);
        } else if !register_cpu_fallback && ends_with_cpu {
            let _cpu = plan.pop();
            assert(plan@ =~= named_providers(normalized(provider@)).drop_last());
        }
    }
    Ok(plan)
}

proof fn cpu_appears_last_only(name: Seq<char>)
    ensures
        forall|i: int|
            0 <= i < named_providers(name).len() - 1 ==> #[trigger] named_providers(name)[i]
                != ProviderKind::Cpu,
        named_providers(name).len() >= 1,
{
}

/// With a fallback every plan ends with the CPU; without one the CPU is in the
/// plan only where it was asked for by name.
pub proof fn cpu_fallback_is_explicit(provider: Seq<char>)
    ensures
        provider_plan(provider, true).len() >= 1,
        provider_plan(provider, true).last() == ProviderKind::Cpu,
        provider_plan(provider, false).contains(ProviderKind::Cpu) ==> normalized(provider)
            == "cpu"@,
{
    cpu_appears_last_only(normalized(provider));
    let named = named_providers(normalized(provider));
    if normalized(provider) == "cpu"@ {
        reveal_strlit("cpu");
        reveal_strlit("auto");
        reveal_strlit("tensorrt");
        reveal_strlit("cuda");
        reveal_strlit("migraphx");
        reveal_strlit("openvino");
        assert("cpu"@.len() == 3);
        assert(named =~= seq![ProviderKind::Cpu]);
    } else {
        let plan = provider_plan(provider, false);
        assert forall|i: int| 0 <= i < plan.len() implies plan[i] != ProviderKind::Cpu by {
            if i < named.len() - 1 {
                assert(named[i] != ProviderKind::Cpu);
            }
        }
    }
}

proof fn provider_names_differ()
    ensures
        forall|a: ProviderKind, b: ProviderKind| #![auto] a.text() == b.text() ==> a == b,
        forall|kind: ProviderKind| #![auto] kind.text() != "auto"@,
        "auto"@ != "tensorrt"@,
        "auto"@ != "cuda"@,
        "auto"@ != "migraphx"@,
        "auto"@ != "openvino"@,
        "auto"@ != "cpu"@,
        "tensorrt"@ != "cuda"@,
        "tensorrt"@ != "migraphx"@,
        "tensorrt"@ != "openvino"@,
        "tensorrt"@ != "cpu"@,
        "cuda"@ != "migraphx"@,
        "cuda"@ != "openvino"@,
        "cuda"@ != "cpu"@,
        "migraphx"@ != "openvino"@,
        "migraphx"@ != "cpu"@,
        "openvino"@ != "cpu"@,
{
    reveal_strlit("cpu");
    reveal_strlit("auto");
    reveal_strlit("tensorrt");
    reveal_strlit("cuda");
    reveal_strlit("migraphx");
    reveal_strlit("openvino");
    assert("cpu"@.len() == 3 && "auto"@.len() == 4 && "cuda"@.len() == 4);
    assert("tensorrt"@.len() == 8 && "migraphx"@.len() == 8 && "openvino"@.len() == 8);
    assert("auto"@[0] == 'a' && "cuda"@[0] == 'c');
    assert("tensorrt"@[0] == 't' && "migraphx"@[0] == 'm' && "openvino"@[0] == 'o');
}

/// A provider's name means that provider: whatever normalizes to it is planned to
/// be registered first, and only the CPU may follow, where a fallback is wanted.
pub proof fn a_named_provider_leads(
    provider: Seq<char>,
    kind: ProviderKind,
    register_cpu_fallback: bool,
)
    requires
        normalized(provider) == kind.text(),
    ensures
        provider_plan(provider, register_cpu_fallback).len() > 0,
        provider_plan(provider, register_cpu_fallback)[0] == kind,
        provider_plan(provider, register_cpu_fallback)[0].text() == normalized(provider),
        provider_plan(provider, register_cpu_fallback).len() == (if register_cpu_fallback && kind
            != ProviderKind::Cpu {
            2nat
        } else {
            1
        }),
        forall|i: int|
            0 < i < provider_plan(provider, register_cpu_fallback).len() ==> #[trigger]
            provider_plan(provider, register_cpu_fallback)[i] == ProviderKind::Cpu,
{
    provider_names_differ();
}

/// The name of each provider is its own, and the one that is configured.
pub proof fn providers_have_their_names(provider: Seq<char>, register_cpu_fallback: bool)
    ensures
        normalized(provider) == "tensorrt"@ ==> provider_plan(
            provider,
            register_cpu_fallback,
        ).first() == ProviderKind::TensorRt,
        normalized(provider) == "cuda"@ ==> provider_plan(provider, register_cpu_fallback).first()
            == ProviderKind::Cuda,
        normalized(provider) == "migraphx"@ ==> provider_plan(
            provider,
            register_cpu_fallback,
        ).first() == ProviderKind::Migraphx,
        normalized(provider) == "openvino"@ ==> provider_plan(
            provider,
            register_cpu_fallback,
        ).first() == ProviderKind::OpenVino,
        normalized(provider) == "cpu"@ ==> provider_plan(provider, register_cpu_fallback).first()
            == ProviderKind::Cpu,
        forall|a: ProviderKind, b: ProviderKind| #![auto] a.text() == b.text() ==> a == b,
{
    provider_names_differ();
}

/// Without a choice every accelerator is tried once before the CPU, which is tried
/// only where a fallback is wanted; a name that is none stands for the CPU alone,
/// and then only where a fallback is wanted.
pub proof fn other_names_try_all_or_none(provider: Seq<char>, kind: ProviderKind)
    requires
        forall|other: ProviderKind| normalized(provider) != #[trigger] other.text(),
    ensures
        normalized(provider) == "auto"@ ==> {
            &&& provider_plan(provider, true).no_duplicates()
            &&& provider_plan(provider, false).no_duplicates()
            &&& provider_plan(provider, true).contains(kind)
            &&& provider_plan(provider, false).contains(kind) <==> kind != ProviderKind::Cpu
            &&& provider_plan(provider, true) == provider_plan(provider, false).push(
                ProviderKind::Cpu,
            )
            &&& provider_plan(provider, false).first() == ProviderKind::TensorRt
            &&& provider_plan(provider, false).index_of(ProviderKind::Cuda) < provider_plan(
                provider,
                false,
            ).index_of(ProviderKind::Migraphx)
            &&& provider_plan(provider, false).last() == ProviderKind::OpenVino
        },
        normalized(provider) != "auto"@ ==> provider_plan(provider, true) == seq![ProviderKind::Cpu]
            && provider_plan(provider, false).len() == 0,
{
    assert(normalized(provider) != ProviderKind::TensorRt.text());
    assert(normalized(provider) != ProviderKind::Cuda.text());
    assert(normalized(provider) != ProviderKind::Migraphx.text());
    assert(normalized(provider) != ProviderKind::OpenVino.text());
    assert(normalized(provider) != ProviderKind::Cpu.text());
    let with = provider_plan(provider, true);
    let without = provider_plan(provider, false);
    if normalized(provider) == "auto"@ {
        assert(with == seq![
            ProviderKind::TensorRt,
            ProviderKind::Cuda,
            ProviderKind::Migraphx,
            ProviderKind::OpenVino,
            ProviderKind::Cpu,
        ]);
        assert(without =~= seq![
            ProviderKind::TensorRt,
            ProviderKind::Cuda,
            ProviderKind::Migraphx,
            ProviderKind::OpenVino,
        ]);
        assert(with =~= without.push(ProviderKind::Cpu));
        assert(with[0] == ProviderKind::TensorRt && without[0] == ProviderKind::TensorRt);
        assert(with[1] == ProviderKind::Cuda && without[1] == ProviderKind::Cuda);
        assert(with[2] == ProviderKind::Migraphx && without[2] == ProviderKind::Migraphx);
        assert(with[3] == ProviderKind::OpenVino && without[3] == ProviderKind::OpenVino);
        assert(with[4] == ProviderKind::Cpu);
        assert(without.contains(ProviderKind::Cuda) && without.contains(ProviderKind::Migraphx));
    } else {
        assert(without =~= Seq::empty());
    }
}

/// Where the registration of a plan stands.
#[derive(Clone, Copy, Debug, PartialEq, Eq, Structural)]
pub struct Registration {
    pub next: usize,
    pub preference: Option<ProviderKind>,
}

#[derive(Clone, Copy, Debug, PartialEq, Eq, Structural)]
pub enum RegistrationStep {
    Register(ProviderKind),
    Finished(ProviderKind),
    RequiredFailed(ProviderKind),
    NoneRegistered,
}

/// What comes next in the registration of a plan.
pub open spec fn registration_next(plan: Seq<ProviderKind>, state: Registration) -> RegistrationStep {
    if state.next < plan.len() {
        RegistrationStep::Register(plan[state.next as int])
    } else {
        match state.preference {
            Some(kind) => RegistrationStep::Finished(kind),
            None => RegistrationStep::NoneRegistered,
        }
    }
}

fn next_registration(plan: &Vec<ProviderKind>, state: Registration) -> (step: RegistrationStep)
    ensures
        step == registration_next(plan@, state),
{
    if state.next < plan.len() {
        RegistrationStep::Register(plan[state.next])
    } else {
        match state.preference {
            Some(kind) => RegistrationStep::Finished(kind),
            None => RegistrationStep::NoneRegistered,
        }
    }
}

pub fn begin_registration(plan: &Vec<ProviderKind>) -> (started: (Registration, RegistrationStep))
    ensures
        started.0 == (Registration { next: 0, preference: None }),
        started.1 == registration_next(plan@, started.0),
{
    let state = Registration { next: 0, preference: None };
    (state, next_registration(plan, state))
}

/// Continues after one provider: the first that registers is the preference,
/// one that does not is passed over, and the CPU must register.
pub fn configure_execution_providers(
    plan: &Vec<ProviderKind>,
    state: Registration,
    registered: bool,
) -> (continued: (Registration, RegistrationStep))
    requires
        state.next < plan@.len(),
    ensures
        ({
            let kind = plan@[state.next as int];
            let next = Registration {
                next: (state.next + 1) as usize,
                preference: if registered && state.preference is None {
                    Some(kind)
                } else {
                    state.preference
                },
            };
            continued.0 == next && continued.1 == (if !registered && kind == ProviderKind::Cpu {
                RegistrationStep::RequiredFailed(kind)
            } else {
                registration_next(plan@, next)
            })
        }),
{
    let count: usize = plan.len();
    assert(state.next < count);
    let kind = plan[state.next];
    let preference = if registered && state.preference.is_none() {
        Some(kind)
    } else {
        state.preference
    };
    let next = Registration { next: state.next + 1, preference };
    if !registered && kind == ProviderKind::Cpu {
        return (next, RegistrationStep::RequiredFailed(kind));
    }
    (next, next_registration(plan, next))
}

/// The preference that both sessions have, or `mixed`.
pub fn registered_preferred_provider(detector: &str, recognizer: &str) -> (preference: String)
    ensures
        preference@ == (if detector@ == recognizer@ {
            detector@
        } else {
            "mixed"@
        }),
{
    if str_eq(detector, recognizer) {
        detector.to_owned()
    } else {
        "mixed".to_owned()
    }
}

/// Why something about inference was rejected.
#[derive(Debug, PartialEq, Eq)]
pub enum InferenceError {
    OutputCount { model: &'static str, actual: usize, expected: usize },
    /// The runtime did not hand an output out as an array of numbers.
    Extraction { index: usize },
    OutputIndex { index: usize },
    Stride { stride: usize },
    Overflow,
    OutputShape { index: usize },
    NotContiguous { index: usize },
    OutputLength { index: usize, actual: usize, expected: usize },
    NonFinite { index: usize },
    RecognizerShape,
    RecognizerNotContiguous,
    RecognizerLength { actual: usize },
    RecognizerNonFinite,
    RecognizerNorm,
    FrameOverflow { width: u32, height: u32 },
    FrameTooSmall { actual: usize, expected: usize },
    FrameTooLarge { actual: usize, expected: usize },
    FrameZero { width: u32, height: u32 },
}

pub fn validate_output_count(model: &'static str, actual: usize, expected: usize) -> (result: Result<
    (),
    InferenceError,
>)
    ensures
        result == (if actual == expected {
            Ok(())
        } else {
            Err(InferenceError::OutputCount { model, actual, expected })
        }),
{
    if actual != expected {
        return Err(InferenceError::OutputCount { model, actual, expected });
    }
    Ok(())
}

/// The values of an output as a sequence, if they lie in one piece.
pub open spec fn values_of(data: Option<&[u32]>) -> Option<Seq<u32>> {
    match data {
        Some(values) => Some(values@),
        None => None,
    }
}

/// The stride that an output of the detector belongs to: outputs come in three
/// groups, each with one output per stride.
pub open spec fn output_stride(output_index: usize) -> usize {
    if output_index % 3 == 0 {
        8
    } else if output_index % 3 == 1 {
        16
    } else {
        32
    }
}

/// How many values an anchor has in an output: a score, a box, or landmarks.
pub open spec fn output_width(output_index: usize) -> Option<usize> {
    if output_index / 3 == 0 {
        Some(1)
    } else if output_index / 3 == 1 {
        Some(4)
    } else if output_index / 3 == 2 {
        Some(10)
    } else {
        None
    }
}

/// How many anchors the detector has at a stride.
pub open spec fn anchors_at(det_w: usize, det_h: usize, stride: usize) -> int {
    (det_w / stride) * (det_h / stride) * 2
}

/// Why an output of the detector is not what its input calls for.
pub open spec fn scrfd_error(
    output_index: usize,
    det_w: usize,
    det_h: usize,
    shape: Seq<usize>,
    data: Option<Seq<u32>>,
) -> Option<InferenceError> {
    let stride = output_stride(output_index);
    let anchors = anchors_at(det_w, det_h, stride);
    match output_width(output_index) {
        None => Some(InferenceError::OutputIndex { index: output_index }),
        Some(width) => {
            let expected = anchors * width;
            if det_w == 0 || det_h == 0 || det_w % stride != 0 || det_h % stride != 0 {
                Some(InferenceError::Stride { stride })
            } else if anchors > usize::MAX {
                Some(InferenceError::Overflow)
            } else if shape != seq![anchors as usize, width] && shape != seq![
                1usize,
                anchors as usize,
                width,
            ] {
                Some(InferenceError::OutputShape { index: output_index })
            } else {
                match data {
                    None => Some(InferenceError::NotContiguous { index: output_index }),
                    Some(values) => if expected > usize::MAX {
                        Some(InferenceError::Overflow)
                    } else if values.len() != expected {
                        Some(
                            InferenceError::OutputLength {
                                index: output_index,
                                actual: values.len() as usize,
                                expected: expected as usize,
                            },
                        )
                    } else if !all_finite(values) {
                        Some(InferenceError::NonFinite { index: output_index })
                    } else {
                        None
                    },
                }
            }
        },
    }
}

fn shape_is(shape: &[usize], wanted: &Vec<usize>) -> (same: bool)
    ensures
        same == (shape@ == wanted@),
{
    if shape.len() != wanted.len() {
        return false;
    }
    let mut index: usize = 0;
    while index < shape.len()
        invariant
            index <= shape@.len(),
            shape@.len() == wanted@.len(),
            forall|i: int| 0 <= i < index ==> shape@[i] == wanted@[i],
        decreases shape.len() - index,
    {
        if shape[index] != wanted[index] {
            return false;
        }
        index = index + 1;
    }
    assert(shape@ =~= wanted@);
    true
}

pub fn validate_scrfd_output_facts(
    output_index: usize,
    det_w: usize,
    det_h: usize,
    shape: &[usize],
    contiguous_data: Option<&[u32]>,
) -> (result: Result<(), InferenceError>)
    ensures
        result == (match scrfd_error(output_index, det_w, det_h, shape@, values_of(contiguous_data)) {
            Some(error) => Err(error),
            None => Ok(()),
        }),
{
    let stride: usize = if output_index % 3 == 0 {
        8
    } else if output_index % 3 == 1 {
        16
    } else {
        32
    };
    let group: usize = output_index / 3;
    let width: usize = if group == 0 {
        1
    } else if group == 1 {
        4
    } else if group == 2 {
        10
    } else {
        return Err(InferenceError::OutputIndex { index: output_index });
    };
    if det_w == 0 || det_h == 0 || det_w % stride != 0 || det_h % stride != 0 {
        return Err(InferenceError::Stride { stride });
    }
    let anchors: usize = match (det_w / stride).checked_mul(det_h / stride) {
        None => {
            return Err(InferenceError::Overflow);
        },
        Some(cells) => match cells.checked_mul(2) {
            None => {
                return Err(InferenceError::Overflow);
            },
            Some(anchors) => anchors,
        },
    };
    let mut flat: Vec<usize> = Vec::new();
    flat.push(anchors);
    flat.push(width);
    let mut batched: Vec<usize> = Vec::new();
    batched.push(1);
    batched.push(anchors);
    batched.push(width);
    assert(flat@ =~= seq![anchors, width]);
    assert(batched@ =~= seq![1usize, anchors, width]);
    if !shape_is(shape, &flat) && !shape_is(shape, &batched) {
        return Err(InferenceError::OutputShape { index: output_index });
    }
    let values: &[u32] = match contiguous_data {
        None => {
            return Err(InferenceError::NotContiguous { index: output_index });
        },
        Some(values) => values,
    };
    let expected: usize = match anchors.checked_mul(width) {
        None => {
            return Err(InferenceError::Overflow);
        },
        Some(expected) => expected,
    };
    if values.len() != expected {
        return Err(
            InferenceError::OutputLength { index: output_index, actual: values.len(), expected },
        );
    }
    if !values_are_finite(values) {
        return Err(InferenceError::NonFinite { index: output_index });
    }
    Ok(())
}

/// Why an output of the recognizer is not one embedding with a length.
pub open spec fn recognizer_error(
    shape: Seq<usize>,
    data: Option<Seq<u32>>,
    norm_is_useful: bool,
) -> Option<InferenceError> {
    if shape != seq![1usize, FACE_EMBEDDING_DIM] {
        Some(InferenceError::RecognizerShape)
    } else {
        match data {
            None => Some(InferenceError::RecognizerNotContiguous),
            Some(values) => if values.len() != FACE_EMBEDDING_DIM {
                Some(InferenceError::RecognizerLength { actual: values.len() as usize })
            } else if !all_finite(values) {
                Some(InferenceError::RecognizerNonFinite)
            } else if !norm_is_useful {
                Some(InferenceError::RecognizerNorm)
            } else {
                None
            },
        }
    }
}

/// `norm_is_useful` tells whether the norm of the values is clear of zero.
pub fn validate_recognizer_output_facts(
    shape: &[usize],
    contiguous_data: Option<&[u32]>,
    norm_is_useful: bool,
) -> (result: Result<(), InferenceError>)
    ensures
        result == (match recognizer_error(shape@, values_of(contiguous_data), norm_is_useful) {
            Some(error) => Err(error),
            None => Ok(()),
        }),
{
    let mut wanted: Vec<usize> = Vec::new();
    wanted.push(1);
    wanted.push(FACE_EMBEDDING_DIM);
    assert(wanted@ =~= seq![1usize, FACE_EMBEDDING_DIM]);
    if !shape_is(shape, &wanted) {
        return Err(InferenceError::RecognizerShape);
    }
    let values: &[u32] = match contiguous_data {
        None => {
            return Err(InferenceError::RecognizerNotContiguous);
        },
        Some(values) => values,
    };
    if values.len() != FACE_EMBEDDING_DIM {
        return Err(InferenceError::RecognizerLength { actual: values.len() });
    }
    if !values_are_finite(values) {
        return Err(InferenceError::RecognizerNonFinite);
    }
    if !norm_is_useful {
        return Err(InferenceError::RecognizerNorm);
    }
    Ok(())
}

/// An output of a model: its shape and, if they lie in one piece, the bits of
/// its values.
#[derive(Debug)]
pub struct ModelOutput {
    pub shape: Vec<usize>,
    pub values: Option<Vec<u32>>,
}

impl ModelOutput {
    pub open spec fn bits(&self) -> Option<Seq<u32>> {
        match self.values {
            Some(values) => Some(values@),
            None => None,
        }
    }
}

/// Why one output in the detector's list is not what it should be.
pub open spec fn scrfd_output_error(
    outputs: Seq<Option<ModelOutput>>,
    index: int,
    det_w: usize,
    det_h: usize,
) -> Option<InferenceError> {
    match outputs[index] {
        None => Some(InferenceError::Extraction { index: index as usize }),
        Some(output) => scrfd_error(
            index as usize,
            det_w,
            det_h,
            output.shape@,
            output.bits(),
        ),
    }
}

/// The detector returns nine outputs and every one of them is valid; otherwise
/// the first that is not says why. `None` stands for an output that the runtime
/// did not hand out.
pub fn validate_scrfd_outputs(
    outputs: &Vec<Option<ModelOutput>>,
    det_w: usize,
    det_h: usize,
) -> (result: Result<(), InferenceError>)
    ensures
        outputs@.len() != SCRFD_OUTPUT_COUNT ==> result == Err::<(), InferenceError>(
            InferenceError::OutputCount {
                model: "SCRFD",
                actual: outputs@.len() as usize,
                expected: SCRFD_OUTPUT_COUNT,
            },
        ),
        outputs@.len() == SCRFD_OUTPUT_COUNT ==> match result {
            Ok(_) => forall|i: int|
                0 <= i < outputs@.len() ==> #[trigger] scrfd_output_error(
                    outputs@,
                    i,
                    det_w,
                    det_h,
                ) is None,
            Err(error) => exists|i: int|
                0 <= i < outputs@.len() && #[trigger] scrfd_output_error(outputs@, i, det_w, det_h)
                    == Some(error) && forall|j: int|
                    0 <= j < i ==> #[trigger] scrfd_output_error(outputs@, j, det_w, det_h)
                        is None,
        },
{
    validate_output_count("SCRFD", outputs.len(), SCRFD_OUTPUT_COUNT)?;
    let mut index: usize = 0;
    while index < outputs.len()
        invariant
            index <= outputs@.len(),
            forall|i: int|
                0 <= i < index ==> #[trigger] scrfd_output_error(outputs@, i, det_w, det_h)
                    is None,
            outputs@.len() == SCRFD_OUTPUT_COUNT,
        decreases outputs.len() - index,
    {
        let checked = match &outputs[index] {
            None => Err(InferenceError::Extraction { index }),
            Some(output) => {
                let values: Option<&[u32]> = match &output.values {
                    Some(values) => Some(values.as_slice()),
                    None => None,
                };
                validate_scrfd_output_facts(index, det_w, det_h, output.shape.as_slice(), values)
            },
        };
        match checked {
            Err(error) => {
                assert(scrfd_output_error(outputs@, index as int, det_w, det_h) == Some(error));
                return Err(error);
            },
            Ok(()) => {},
        }
        index = index + 1;
    }
    Ok(())
}

/// Why the recognizer's list of outputs is not one embedding. Whether the
/// values lie in one piece is looked at before the shape.
pub open spec fn embedding_error(
    outputs: Seq<Option<ModelOutput>>,
    norm_is_useful: bool,
) -> Option<InferenceError> {
    if outputs.len() != 1 {
        Some(
            InferenceError::OutputCount {
                model: "recognizer",
                actual: outputs.len() as usize,
                expected: 1,
            },
        )
    } else {
        match outputs[0] {
            None => Some(InferenceError::Extraction { index: 0 }),
            Some(output) => if output.values is None {
                Some(InferenceError::RecognizerNotContiguous)
            } else {
                recognizer_error(output.shape@, output.bits(), norm_is_useful)
            },
        }
    }
}

/// The bits of the one embedding that the recognizer returned. `norm_is_useful`
/// tells whether the norm of the values is clear of zero.
pub fn extract_valid_recognizer_output(
    outputs: &Vec<Option<ModelOutput>>,
    norm_is_useful: bool,
) -> (embedding: Result<Vec<u32>, InferenceError>)
    ensures
        match embedding {
            Ok(values) => embedding_error(outputs@, norm_is_useful) is None && outputs@[0]->0.bits()
                == Some(values@),
            Err(error) => embedding_error(outputs@, norm_is_useful) == Some(error),
        },
{
    validate_output_count("recognizer", outputs.len(), 1)?;
    match &outputs[0] {
        None => Err(InferenceError::Extraction { index: 0 }),
        Some(output) => match &output.values {
            None => Err(InferenceError::RecognizerNotContiguous),
            Some(values) => {
                validate_recognizer_output_facts(
                    output.shape.as_slice(),
                    Some(values.as_slice()),
                    norm_is_useful,
                )?;
                let mut copy: Vec<u32> = Vec::new();
                copy.extend_from_slice(values.as_slice());
                assert(copy@ =~= values@);
                Ok(copy)
            },
        },
    }
}

/// Why a buffer cannot be a frame of the stated dimensions.
pub open spec fn frame_buffer_error(
    length: usize,
    width: u32,
    height: u32,
    is_gray: bool,
) -> Option<InferenceError> {
    let channels: int = if is_gray {
        1
    } else {
        3
    };
    let expected = width * height * channels;
    if expected > usize::MAX {
        Some(InferenceError::FrameOverflow { width, height })
    } else if length < expected {
        Some(InferenceError::FrameTooSmall { actual: length, expected: expected as usize })
    } else if width == 0 || height == 0 {
        Some(InferenceError::FrameZero { width, height })
    } else if length > expected {
        Some(InferenceError::FrameTooLarge { actual: length, expected: expected as usize })
    } else {
        None
    }
}

/// Whether a buffer is as long as its declared dimensions and format say.
pub fn validate_frame_buffer(data: &[u8], width: u32, height: u32, is_gray: bool) -> (result: Result<
    (),
    InferenceError,
>)
    ensures
        result == (match frame_buffer_error(data@.len() as usize, width, height, is_gray) {
            Some(error) => Err(error),
            None => Ok(()),
        }),
        result is Ok <==> width > 0 && height > 0 && data@.len() == width * height * (if is_gray {
            1int
        } else {
            3
        }),
{
    let length: usize = data.len();
    let channels: usize = if is_gray {
        1
    } else {
        3
    };
    let columns: usize = width as usize;
    let rows: usize = height as usize;
    let expected: usize = match columns.checked_mul(rows) {
        None => {
            assert(width * height * channels >= width * height) by (nonlinear_arith)
                requires
                    channels >= 1,
            ;
            return Err(InferenceError::FrameOverflow { width, height });
        },
        Some(pixels) => match pixels.checked_mul(channels) {
            None => {
                return Err(InferenceError::FrameOverflow { width, height });
            },
            Some(expected) => expected,
        },
    };
    if length < expected {
        return Err(InferenceError::FrameTooSmall { actual: length, expected });
    }
    if width == 0 || height == 0 {
        return Err(InferenceError::FrameZero { width, height });
    }
    if length > expected {
        return Err(InferenceError::FrameTooLarge { actual: length, expected });
    }
    Ok(())
}

/// The first stride that the detector's input is not a multiple of.
pub open spec fn first_bad_stride(width: u32, height: u32) -> Option<usize> {
    if width == 0 || height == 0 || width % 8 != 0 || height % 8 != 0 {
        Some(8)
    } else if width % 16 != 0 || height % 16 != 0 {
        Some(16)
    } else if width % 32 != 0 || height % 32 != 0 {
        Some(32)
    } else {
        None
    }
}

/// The anchors of all strides.
pub open spec fn total_anchors(width: u32, height: u32) -> int {
    anchors_at(width as usize, height as usize, 8) + anchors_at(
        width as usize,
        height as usize,
        16,
    ) + anchors_at(width as usize, height as usize, 32)
}

/// The bytes of both inputs, four per value: three planes of the detector's
/// size, and three of 112 by 112.
pub open spec fn input_bytes(width: u32, height: u32) -> int {
    12 * (width * height) + 150528
}

/// The most plaintext that one pass holds at once: the inputs, and the larger
/// of the detector's phase (its outputs of fifteen values per anchor, and a
/// candidate, a result and a mark per anchor) and the recognizer's (the faces,
/// its output and a copy).
pub open spec fn peak_bytes(width: u32, height: u32, face_bytes: usize) -> int {
    let anchors = total_anchors(width, height);
    let detector = 60 * anchors + anchors * (2 * face_bytes + 1);
    let recognizer = anchors * face_bytes + 4096;
    input_bytes(width, height) + if detector >= recognizer {
        detector
    } else {
        recognizer
    }
}

proof fn anchors_are_bounded(width: u32, height: u32)
    requires
        first_bad_stride(width, height) is None,
    ensures
        0 < anchors_at(width as usize, height as usize, 8) <= width * height,
        0 < anchors_at(width as usize, height as usize, 16) <= width * height,
        0 < anchors_at(width as usize, height as usize, 32) <= width * height,
        total_anchors(width, height) <= width * height,
{
    let w8 = width as int / 8;
    let h8 = height as int / 8;
    let w16 = width as int / 16;
    let h16 = height as int / 16;
    let w32 = width as int / 32;
    let h32 = height as int / 32;
    assert(width == 8 * w8 && height == 8 * h8);
    assert(width == 16 * w16 && height == 16 * h16);
    assert(width == 32 * w32 && height == 32 * h32);
    assert(w32 >= 1 && h32 >= 1);
    assert(width * height == 64 * (w8 * h8)) by (nonlinear_arith)
        requires
            width == 8 * w8,
            height == 8 * h8,
    ;
    assert(width * height == 256 * (w16 * h16)) by (nonlinear_arith)
        requires
            width == 16 * w16,
            height == 16 * h16,
    ;
    assert(width * height == 1024 * (w32 * h32)) by (nonlinear_arith)
        requires
            width == 32 * w32,
            height == 32 * h32,
    ;
    assert(w32 * h32 >= 1) by (nonlinear_arith)
        requires
            w32 >= 1,
            h32 >= 1,
    ;
}

/// The plaintext budget that a detector of the given input size needs.
/// `face_bytes` is the size of one detected face in memory.
#[verifier::rlimit(40)]
pub fn inference_plaintext_scratch_bytes(
    detector_width: u32,
    detector_height: u32,
    face_bytes: usize,
) -> (bytes: Result<usize, InferenceError>)
    ensures
        bytes == (if input_bytes(detector_width, detector_height) > usize::MAX {
            Err(InferenceError::Overflow)
        } else {
            match first_bad_stride(detector_width, detector_height) {
                Some(stride) => Err(InferenceError::Stride { stride }),
                None => if peak_bytes(detector_width, detector_height, face_bytes) > usize::MAX {
                    Err(InferenceError::Overflow)
                } else {
                    Ok(peak_bytes(detector_width, detector_height, face_bytes) as usize)
                },
            }
        }),
{
    let width: usize = detector_width as usize;
    let height: usize = detector_height as usize;
    let ghost area = detector_width * detector_height;
    let pixels: usize = match width.checked_mul(height) {
        None => {
            return Err(InferenceError::Overflow);
        },
        Some(pixels) => pixels,
    };
    let inputs: usize = match pixels.checked_mul(12) {
        None => {
            return Err(InferenceError::Overflow);
        },
        Some(detector) => match detector.checked_add(150528) {
            None => {
                return Err(InferenceError::Overflow);
            },
            Some(inputs) => inputs,
        },
    };
    if width == 0 || height == 0 || width % 8 != 0 || height % 8 != 0 {
        return Err(InferenceError::Stride { stride: 8 });
    }
    if width % 16 != 0 || height % 16 != 0 {
        return Err(InferenceError::Stride { stride: 16 });
    }
    if width % 32 != 0 || height % 32 != 0 {
        return Err(InferenceError::Stride { stride: 32 });
    }
    proof {
        anchors_are_bounded(detector_width, detector_height);
    }
    let fine: usize = (width / 8) * (height / 8);
    let middle: usize = (width / 16) * (height / 16);
    let coarse: usize = (width / 32) * (height / 32);
    let anchors: usize = fine * 2 + middle * 2 + coarse * 2;
    let ghost peak = peak_bytes(detector_width, detector_height, face_bytes);
    proof {
        assert(anchors == total_anchors(detector_width, detector_height));
        assert(anchors * (2 * face_bytes + 1) >= 2 * face_bytes + 1) by (nonlinear_arith)
            requires
                anchors >= 1,
                face_bytes >= 0,
        ;
        assert(anchors * face_bytes >= 0) by (nonlinear_arith)
            requires
                anchors >= 0,
                face_bytes >= 0,
        ;
    }
    let outputs: usize = match anchors.checked_mul(60) {
        None => {
            return Err(InferenceError::Overflow);
        },
        Some(outputs) => outputs,
    };
    let per_candidate: usize = match face_bytes.checked_mul(2) {
        None => {
            return Err(InferenceError::Overflow);
        },
        Some(doubled) => match doubled.checked_add(1) {
            None => {
                return Err(InferenceError::Overflow);
            },
            Some(per_candidate) => per_candidate,
        },
    };
    let candidates: usize = match anchors.checked_mul(per_candidate) {
        None => {
            return Err(InferenceError::Overflow);
        },
        Some(candidates) => candidates,
    };
    let detector_phase: usize = match outputs.checked_add(candidates) {
        None => {
            return Err(InferenceError::Overflow);
        },
        Some(detector_phase) => detector_phase,
    };
    let recognizer_phase: usize = match anchors.checked_mul(face_bytes) {
        None => {
            return Err(InferenceError::Overflow);
        },
        Some(faces) => match faces.checked_add(4096) {
            None => {
                return Err(InferenceError::Overflow);
            },
            Some(recognizer_phase) => recognizer_phase,
        },
    };
    let phase: usize = if detector_phase >= recognizer_phase {
        detector_phase
    } else {
        recognizer_phase
    };
    match inputs.checked_add(phase) {
        None => Err(InferenceError::Overflow),
        Some(total) => Ok(total),
    }
}

/// Everything about a file that must not change while it is hashed.
#[derive(Clone, Copy, Debug, PartialEq, Eq, Structural)]
pub struct FileIdentity {
    pub device: u64,
    pub inode: u64,
    pub uid: u32,
    pub gid: u32,
    pub mode: u32,
    pub links: u64,
    pub length: u64,
    pub mtime: i64,
    pub mtime_nsec: i64,
    pub ctime: i64,
    pub ctime_nsec: i64,
}

#[derive(Clone, Copy, Debug, PartialEq, Eq, Structural)]
pub enum ModelDigestError {
    SizeLimit,
    Cancelled,
    BecameShorter,
    BecameLonger,
    Changed,
}

impl ModelDigestError {
    pub open spec fn text(self) -> Seq<char> {
        match self {
            ModelDigestError::SizeLimit =>
                "pinned recognizer model size is outside the storage readiness limit"@,
            ModelDigestError::Cancelled => "recognizer digest cancelled by readiness deadline"@,
            ModelDigestError::BecameShorter =>
                "pinned recognizer model became shorter while it was hashed"@,
            ModelDigestError::BecameLonger =>
                "pinned recognizer model became longer while it was hashed"@,
            ModelDigestError::Changed =>
                "pinned recognizer model changed while storage binding was computed"@,
        }
    }

    pub fn message(self) -> (message: &'static str)
        ensures
            message@ == self.text(),
    {
        match self {
            ModelDigestError::SizeLimit =>
                "pinned recognizer model size is outside the storage readiness limit",
            ModelDigestError::Cancelled => "recognizer digest cancelled by readiness deadline",
            ModelDigestError::BecameShorter =>
                "pinned recognizer model became shorter while it was hashed",
            ModelDigestError::BecameLonger =>
                "pinned recognizer model became longer while it was hashed",
            ModelDigestError::Changed =>
                "pinned recognizer model changed while storage binding was computed",
        }
    }
}

/// The next read of a file that is hashed.
#[derive(Clone, Copy, Debug, PartialEq, Eq, Structural)]
pub enum HashAction {
    Read { offset: u64, amount: usize },
    /// All expected bytes have come: there must be none behind them.
    Probe { offset: u64 },
}

/// A digest of a pinned file, computed piece by piece.
pub struct ModelHash {
    identity: FileIdentity,
    total: u64,
    hasher: sha2::Sha256,
}

impl ModelHash {
    /// The bytes hashed so far.
    pub closed spec fn content(&self) -> Seq<u8> {
        absorbed(self.hasher)
    }

    /// The file as it was when the computation began.
    pub closed spec fn file(&self) -> FileIdentity {
        self.identity
    }

    closed spec fn count(&self) -> u64 {
        self.total
    }

    pub open spec fn wf(&self) -> bool {
        &&& self.content().len() <= self.file().length
        &&& self.counted()
    }

    pub closed spec fn counted(&self) -> bool {
        self.total == self.content().len()
    }

    /// Begins with a file that is neither empty nor too large.
    pub fn begin(identity: FileIdentity, maximum_bytes: u64) -> (hash: Result<
        Self,
        ModelDigestError,
    >)
        ensures
            match hash {
                Ok(started) => 0 < identity.length <= maximum_bytes && started.file() == identity
                    && started.content() == Seq::<u8>::empty() && started.wf(),
                Err(error) => !(0 < identity.length <= maximum_bytes) && error
                    == ModelDigestError::SizeLimit,
            },
    {
        if identity.length == 0 || identity.length > maximum_bytes {
            return Err(ModelDigestError::SizeLimit);
        }
        Ok(ModelHash { identity, total: 0, hasher: new_hasher() })
    }

    /// The read that comes next. The deadline is looked at before each piece.
    pub fn action(&self, cancelled: bool) -> (action: Result<HashAction, ModelDigestError>)
        requires
            self.wf(),
        ensures
            ({
                let left = self.file().length - self.content().len();
                action == (if left == 0 {
                    Ok(HashAction::Probe { offset: self.file().length })
                } else if cancelled {
                    Err(ModelDigestError::Cancelled)
                } else {
                    Ok(
                        HashAction::Read {
                            offset: self.content().len() as u64,
                            amount: if left < 65536 {
                                left as usize
                            } else {
                                65536
                            },
                        },
                    )
                })
            }),
    {
        if self.total == self.identity.length {
            return Ok(HashAction::Probe { offset: self.identity.length });
        }
        if cancelled {
            return Err(ModelDigestError::Cancelled);
        }
        let left: u64 = self.identity.length - self.total;
        let amount: usize = if left < 65536 {
            left as usize
        } else {
            65536
        };
        Ok(HashAction::Read { offset: self.total, amount })
    }

    /// Takes in what a read returned.
    pub fn add_piece(&mut self, piece: &[u8]) -> (result: Result<(), ModelDigestError>)
        requires
            old(self).wf(),
            piece@.len() <= old(self).file().length - old(self).content().len(),
        ensures
            final(self).wf(),
            final(self).file() == old(self).file(),
            final(self).content() == old(self).content() + piece@,
            result == (if piece@.len() == 0 {
                Err(ModelDigestError::BecameShorter)
            } else {
                Ok(())
            }),
    {
        if piece.len() == 0 {
            assert(self.content() + piece@ =~= self.content());
            return Err(ModelDigestError::BecameShorter);
        }
        absorb(&mut self.hasher, piece);
        self.total = self.total + piece.len() as u64;
        Ok(())
    }

    /// Ends the computation: the file must have ended with the last piece and
    /// must be what it was at the beginning.
    pub fn finish_digest(self, bytes_behind: usize, after: FileIdentity) -> (digest: Result<
        Vec<u8>,
        ModelDigestError,
    >)
        requires
            self.wf(),
        ensures
            match digest {
                Ok(bytes) => bytes_behind == 0 && after == self.file() && self.content().len()
                    == self.file().length && bytes@ == sha256_of(self.content()),
                Err(ModelDigestError::BecameLonger) => bytes_behind != 0,
                Err(ModelDigestError::Changed) => bytes_behind == 0 && (after != self.file()
                    || self.content().len() != self.file().length),
                Err(_) => false,
            },
    {
        if bytes_behind != 0 {
            return Err(ModelDigestError::BecameLonger);
        }
        if self.total != self.identity.length || after != self.identity {
            return Err(ModelDigestError::Changed);
        }
        Ok(finish(self.hasher))
    }
}

/// A model file that has been selected and opened. Its path is kept for
/// messages; reads go through the descriptor.
#[derive(Debug)]
pub struct ResolvedModel {
    pub path: Vec<u8>,
    pub descriptor: u32,
}

impl ResolvedModel {
    pub fn display_path(&self) -> (path: &[u8])
        ensures
            path@ == self.path@,
    {
        self.path.as_slice()
    }

    /// The path that leads to the open file whatever its name is by now.
    pub fn descriptor_path(&self) -> (path: String)
        ensures
            path@ == "/proc/self/fd/"@ + decimal(self.descriptor as nat),
    {
        let mut path = "/proc/self/fd/".to_owned();
        push_decimal(&mut path, self.descriptor as u64);
        path
    }
}

/// Both models of one startup.
#[derive(Debug)]
pub struct ResolvedModels {
    pub detector_model: ResolvedModel,
    pub recognizer_model: ResolvedModel,
}

impl ResolvedModels {
    pub fn detector(&self) -> (model: &ResolvedModel)
        ensures
            *model == self.detector_model,
    {
        &self.detector_model
    }

    pub fn recognizer(&self) -> (model: &ResolvedModel)
        ensures
            *model == self.recognizer_model,
    {
        &self.recognizer_model
    }
}

/// Adds the detector to a recognizer that storage is already bound to.
pub fn resolve_models_with_recognizer(
    detector: Result<ResolvedModel, ModelError>,
    recognizer: ResolvedModel,
) -> (models: Result<ResolvedModels, ModelError>)
    ensures
        models == (match detector {
            Ok(model) => Ok(
                ResolvedModels { detector_model: model, recognizer_model: recognizer },
            ),
            Err(error) => Err(error),
        }),
{
    match detector {
        Ok(model) => Ok(ResolvedModels { detector_model: model, recognizer_model: recognizer }),
        Err(error) => Err(error),
    }
}

#[derive(Clone, Copy, Debug, PartialEq, Eq, Structural)]
pub enum ModelError {
    /// The selection leads to the storage credential.
    CredentialAlias,
    /// The candidate could not be opened or is no regular file.
    Unusable,
    ConfiguredNotFound,
    NotInstalled,
}

/// Whether a path ends with the credential's name.
pub open spec fn ends_with_credential_name(path: Seq<u8>) -> bool {
    crate::paths::final_name(path) == Some(encode_utf8("howy.storage.mode1.epoch1"@))
}

/// Whether the directory of a candidate must be looked at: its path ends with
/// the credential's name.
pub fn has_credential_name(path: &[u8], guard: CredentialSourceIdentity) -> (found: bool)
    ensures
        found == ends_with_credential_name(path@),
{
    match crate::paths::file_name(path) {
        Some(last) => bytes_eq(last.as_slice(), guard.credential_name().as_bytes()),
        None => false,
    }
}

/// What is found out about a candidate: the directory that it lies in, if that
/// could be inspected, and what it is, if it could be opened.
#[derive(Clone, Copy, Debug, PartialEq, Eq, Structural)]
pub struct ModelCandidate {
    pub directory: Option<DescriptorIdentity>,
    pub file: Option<DescriptorIdentity>,
    pub is_file: bool,
}

/// A candidate must not be the credential, neither by its name in the
/// credential's directory nor by what it turns out to be, and must be a regular
/// file. The directory matters only where the name is the credential's.
pub open spec fn candidate_error(
    path: Seq<u8>,
    guard: Option<CredentialSourceIdentity>,
    candidate: ModelCandidate,
) -> Option<ModelError> {
    let named = guard is Some && ends_with_credential_name(path);
    if named && candidate.directory is None {
        Some(ModelError::Unusable)
    } else if named && candidate.directory == Some(guard->0.directory) {
        Some(ModelError::CredentialAlias)
    } else {
        match candidate.file {
            None => Some(ModelError::Unusable),
            Some(file) => if !candidate.is_file {
                Some(ModelError::Unusable)
            } else if guard is Some && guard->0.names(file) {
                Some(ModelError::CredentialAlias)
            } else {
                None
            },
        }
    }
}

pub fn open_model_candidate(
    path: &[u8],
    guard: Option<CredentialSourceIdentity>,
    candidate: ModelCandidate,
) -> (result: Result<(), ModelError>)
    ensures
        result == (match candidate_error(path@, guard, candidate) {
            Some(error) => Err(error),
            None => Ok(()),
        }),
{
    match guard {
        Some(source) => {
            if has_credential_name(path, source) {
                match candidate.directory {
                    None => {
                        return Err(ModelError::Unusable);
                    },
                    Some(directory) => {
                        if source.matches_directory(directory) {
                            return Err(ModelError::CredentialAlias);
                        }
                    },
                }
            }
        },
        None => {},
    }
    let file: DescriptorIdentity = match candidate.file {
        None => {
            return Err(ModelError::Unusable);
        },
        Some(file) => file,
    };
    if !candidate.is_file {
        return Err(ModelError::Unusable);
    }
    match guard {
        Some(source) => {
            if source.matches_credential(file) {
                return Err(ModelError::CredentialAlias);
            }
        },
        None => {},
    }
    Ok(())
}

/// Whatever name it is found under, no file that is the credential or its
/// companion is taken as a model, nor anything under the credential's own name
/// in the credential's directory.
pub proof fn models_never_alias_the_credential(
    path: Seq<u8>,
    source: CredentialSourceIdentity,
    candidate: ModelCandidate,
)
    requires
        candidate_error(path, Some(source), candidate) is None,
    ensures
        candidate.file matches Some(file) && file != source.credential && Some(file)
            != source.source_companion,
        ends_with_credential_name(path) ==> candidate.directory != Some(source.directory),
{
}

/// The places where a model is looked for, in order.
#[derive(Clone, Copy, Debug, PartialEq, Eq, Structural)]
pub enum ModelPlace {
    Configured,
    Credential,
    Standard,
}

#[derive(Clone, Copy, Debug, PartialEq, Eq, Structural)]
pub enum ModelStep {
    Open(ModelPlace),
    Accept(ModelPlace),
    Fail(ModelError),
}

/// The two model names that may be delivered as credentials.
pub open spec fn is_fixed_model_name(name: Seq<char>) -> bool {
    name == "det_10g.onnx"@ || name == "w600k_r50.onnx"@
}

/// Where the search for a model starts. A configured path is the only place
/// looked at; the credential's own name is never a model; and only the fixed
/// names are looked for among the credentials.
pub fn begin_model_search(
    configured: &str,
    default_name: &str,
    guarded: bool,
    has_credential_directory: bool,
) -> (step: ModelStep)
    ensures
        step == (if configured@.len() > 0 {
            ModelStep::Open(ModelPlace::Configured)
        } else if guarded && default_name@ == "howy.storage.mode1.epoch1"@ {
            ModelStep::Fail(ModelError::CredentialAlias)
        } else if has_credential_directory && is_fixed_model_name(default_name@) {
            ModelStep::Open(ModelPlace::Credential)
        } else {
            ModelStep::Open(ModelPlace::Standard)
        }),
{
    if !configured.is_empty() {
        return ModelStep::Open(ModelPlace::Configured);
    }
    if guarded && str_eq(default_name, "howy.storage.mode1.epoch1") {
        return ModelStep::Fail(ModelError::CredentialAlias);
    }
    if has_credential_directory && (str_eq(default_name, "det_10g.onnx") || str_eq(
        default_name,
        "w600k_r50.onnx",
    )) {
        ModelStep::Open(ModelPlace::Credential)
    } else {
        ModelStep::Open(ModelPlace::Standard)
    }
}

/// What follows an attempt at a place. `opened` is `None` where there is no
/// file of that name in the standard places. An alias ends the search
/// everywhere; another failure among the credentials only goes on to the
/// standard places.
pub fn after_model_attempt(place: ModelPlace, opened: Option<Result<(), ModelError>>) -> (step:
    ModelStep)
    ensures
        step == (match opened {
            Some(Ok(_)) => ModelStep::Accept(place),
            Some(Err(ModelError::CredentialAlias)) => ModelStep::Fail(ModelError::CredentialAlias),
            Some(Err(error)) => match place {
                ModelPlace::Configured => ModelStep::Fail(ModelError::ConfiguredNotFound),
                ModelPlace::Credential => ModelStep::Open(ModelPlace::Standard),
                ModelPlace::Standard => ModelStep::Fail(error),
            },
            None => match place {
                ModelPlace::Configured => ModelStep::Fail(ModelError::ConfiguredNotFound),
                ModelPlace::Credential => ModelStep::Open(ModelPlace::Standard),
                ModelPlace::Standard => ModelStep::Fail(ModelError::NotInstalled),
            },
        }),
{
    match opened {
        Some(Ok(())) => ModelStep::Accept(place),
        Some(Err(error)) => {
            if error == ModelError::CredentialAlias {
                return ModelStep::Fail(ModelError::CredentialAlias);
            }
            match place {
                ModelPlace::Configured => ModelStep::Fail(ModelError::ConfiguredNotFound),
                ModelPlace::Credential => ModelStep::Open(ModelPlace::Standard),
                ModelPlace::Standard => ModelStep::Fail(error),
            }
        },
        None => match place {
            ModelPlace::Configured => ModelStep::Fail(ModelError::ConfiguredNotFound),
            ModelPlace::Credential => ModelStep::Open(ModelPlace::Standard),
            ModelPlace::Standard => ModelStep::Fail(ModelError::NotInstalled),
        },
    }
}


/// What the recognizer returned is an embedding exactly where it is one output, of
/// one row of 512 values that are all numbers and not all but zero.
pub proof fn embeddings_are_one_row(outputs: Seq<Option<ModelOutput>>, norm_is_useful: bool)
    ensures
        embedding_error(outputs, norm_is_useful) is None <==> {
            &&& outputs.len() == 1 && outputs[0] is Some && outputs[0]->0.values is Some
            &&& outputs[0]->0.shape@.len() == 2
            &&& outputs[0]->0.shape@[0] == 1 && outputs[0]->0.shape@[1] == 512
            &&& outputs[0]->0.values->0@.len() == 512
            &&& forall|i: int|
                0 <= i < 512 ==> crate::float_bits::finite32(
                    #[trigger] outputs[0]->0.values->0@[i],
                )
            &&& norm_is_useful
        },
{
    if outputs.len() == 1 && outputs[0] is Some {
        let shape = outputs[0]->0.shape@;
        let wanted = seq![1usize, FACE_EMBEDDING_DIM];
        assert(wanted.len() == 2 && wanted[0] == 1 && wanted[1] == 512);
        if shape.len() == 2 && shape[0] == 1 && shape[1] == 512 {
            assert(shape =~= wanted);
        }
    }
}

/// The budget of a detector is the same for an input turned on its side. It is the
/// two inputs, of three planes of numbers of four bytes, and the larger of what
/// detecting and recognizing hold: for each anchor fifteen numbers and two faces with
/// a mark, or for each anchor a face and twice an embedding.
pub proof fn budgets_count_what_is_held(width: u32, height: u32, face_bytes: usize)
    ensures
        peak_bytes(width, height, face_bytes) == peak_bytes(height, width, face_bytes),
        ({
            let anchors = 2 * ((width as int / 8) * (height as int / 8) + (width as int / 16) * (
            height as int / 16) + (width as int / 32) * (height as int / 32));
            let inputs = 4 * 3 * (width * height + 112 * 112);
            let detecting = 4 * 15 * anchors + anchors * (2 * face_bytes + 1);
            let recognizing = anchors * face_bytes + 2 * 4 * 512;
            let peak = peak_bytes(width, height, face_bytes);
            &&& peak >= inputs + detecting
            &&& peak >= inputs + recognizing
            &&& peak == inputs + detecting || peak == inputs + recognizing
        }),
{
    let (w, h) = (width as int, height as int);
    let anchors = 2 * ((w / 8) * (h / 8) + (w / 16) * (h / 16) + (w / 32) * (h / 32));
    let total = total_anchors(width, height);
    assert(total == anchors);
    assert(4 * 15 * anchors == 60 * anchors) by (nonlinear_arith);
    assert(total * (2 * face_bytes + 1) == anchors * (2 * face_bytes + 1));
    assert(total * face_bytes == anchors * face_bytes);
    let pixels = width * height;
    assert(4 * 3 * (pixels + 112 * 112) == 12 * pixels + 150528) by (nonlinear_arith);
    assert(w * h == h * w && (w / 8) * (h / 8) == (h / 8) * (w / 8) && (w / 16) * (h / 16) == (h
        / 16) * (w / 16) && (w / 32) * (h / 32) == (h / 32) * (w / 32)) by (nonlinear_arith);
}


/// A frame's bytes are accepted exactly where the frame has a size and there are as many
/// of them as it has pixels, or three times as many in colour.
pub proof fn frame_buffers_are_as_long_as_their_pixels(
    length: usize,
    width: u32,
    height: u32,
    is_gray: bool,
)
    ensures
        frame_buffer_error(length, width, height, is_gray) is None <==> {
            &&& width > 0 && height > 0
            &&& is_gray ==> length == width * height
            &&& !is_gray ==> length == 3 * (width * height)
        },
        is_gray && length < width * height <= usize::MAX ==> frame_buffer_error(
            length,
            width,
            height,
            is_gray,
        ) is Some && frame_buffer_error(length, width, height, is_gray)->0 is FrameTooSmall,
{
    assert(width * height * 1 == width * height) by (nonlinear_arith);
    assert(width * height * 3 == 3 * (width * height)) by (nonlinear_arith);
}

/// A detector's input has to be divisible by all three strides, and the first that does
/// not divide it is named.
pub proof fn inputs_are_divisible_by_every_stride(width: u32, height: u32)
    ensures
        first_bad_stride(width, height) is None <==> width > 0 && height > 0 && width % 32 == 0
            && height % 32 == 0,
        first_bad_stride(width, height) == Some(8usize) <==> width == 0 || height == 0 || width % 8
            != 0 || height % 8 != 0,
        first_bad_stride(width, height) == Some(16usize) <==> width > 0 && height > 0 && width % 8
            == 0 && height % 8 == 0 && (width % 16 != 0 || height % 16 != 0),
{
    assert(width % 32 == 0 ==> width % 16 == 0) by (bit_vector);
    assert(height % 32 == 0 ==> height % 16 == 0) by (bit_vector);
    assert(width % 16 == 0 ==> width % 8 == 0) by (bit_vector);
    assert(height % 16 == 0 ==> height % 8 == 0) by (bit_vector);
}

/// A model may be used exactly where it is a regular file that could be opened and is
/// neither the key nor its companion, and does not bear the key's name in the key's own
/// directory.
pub proof fn usable_models_are_not_the_credential(
    path: Seq<u8>,
    guard: Option<CredentialSourceIdentity>,
    candidate: ModelCandidate,
)
    ensures
        candidate_error(path, guard, candidate) is None <==> {
            &&& candidate.is_file && candidate.file is Some
            &&& guard matches Some(source) ==> {
                &&& candidate.file != Some(source.credential)
                &&& candidate.file != source.source_companion
                &&& crate::paths::final_name(path) == Some(
                    encode_utf8("howy.storage.mode1.epoch1"@),
                ) ==> candidate.directory is Some && candidate.directory != Some(source.directory)
            }
        },
        guard is None && candidate_error(path, guard, candidate) is Some ==> candidate_error(
            path,
            guard,
            candidate,
        ) == Some(ModelError::Unusable),
{
}

} // verus!
