//! What a worker of the precision experiment checks, in which order it works,
//! and what it says of itself.
use crate::digest::{digest_hex, digest_text};
use crate::fp16_args::{
    numbers_are_valid, validate_numeric_configuration, Gates, ParentConfig, DEFAULT_MAX_DETECTOR_SCORE_DRIFT,
    DEFAULT_MAX_ENROLLED_SCORE_DRIFT, DEFAULT_MAX_LANDMARK_RMSE, DEFAULT_MIN_EMBEDDING_COSINE,
    DEFAULT_MIN_FACE_IOU,
};
use crate::fp16_corpus::{corpus_digest, corpus_encoding, verify_corpus_digest, PinnedCorpus};
use crate::fp16_environment::{
    phase_name, phase_text, reviewed_set, text_views, variable_views, EnvironmentAttestation, Precision,
    Variable, WorkerPhase,
};
use crate::fp16_provenance::{
    is_complete, provenance_matches, same_environment, same_provenance, same_stack,
    verify_provider_stack_match, Provenance, ProviderStackProvenance, StackError,
    ORT_CRATE_VERSION,
};
use crate::text::str_eq;
use vstd::prelude::*;
use vstd::string::*;
use vstd::utf8::*;

verus! {

/// What a worker is asked to do.
#[derive(Debug)]
pub struct WorkerRequest {
    pub phase: WorkerPhase,
    pub precision: Precision,
    pub cache_dir: String,
    pub profile_dir: String,
    pub threshold: u32,
    pub configured_gpu_target: String,
    pub hsa_override: String,
    pub environment: EnvironmentAttestation,
    pub expected_provenance: Option<Provenance>,
    pub corpus_digest: String,
    pub corpus: PinnedCorpus,
}

#[derive(Clone, Copy, Debug, PartialEq, Eq, Structural)]
pub enum WorkerError {
    FdPathContractMismatch,
    CacheAttestationMismatch,
    NumericConfiguration,
    CorpusDigestMismatch,
    ProviderStack(StackError),
    ProvenanceMismatch,
}

/// The value that an attestation gives a variable, if it does.
pub open spec fn attested(set: Seq<(Seq<char>, Seq<char>)>, key: Seq<char>) -> Option<Seq<char>>
    decreases set.len(),
{
    if set.len() == 0 {
        None
    } else if set[0].0 == key {
        Some(set[0].1)
    } else {
        attested(set.skip(1), key)
    }
}

fn attested_value<'a>(set: &'a Vec<Variable>, key: &str) -> (value: Option<&'a str>)
    ensures
        match value {
            Some(text) => attested(variable_views(set@), key@) == Some(text@),
            None => attested(variable_views(set@), key@) is None,
        },
{
    let ghost all = variable_views(set@);
    let mut index: usize = 0;
    assert(all.skip(0) =~= all);
    while index < set.len()
        invariant
            index <= set@.len(),
            all == variable_views(set@),
            attested(all, key@) == attested(all.skip(index as int), key@),
        decreases set.len() - index,
    {
        assert(all.skip(index as int)[0] == all[index as int]);
        assert(all.skip(index as int).skip(1) =~= all.skip(index + 1));
        if str_eq(set[index].key.as_str(), key) {
            return Some(set[index].value.as_str());
        }
        index = index + 1;
    }
    None
}

/// The gates as they are where nothing else is said.
pub open spec fn default_gates() -> Gates {
    Gates {
        min_face_iou: DEFAULT_MIN_FACE_IOU,
        max_detector_score_drift: DEFAULT_MAX_DETECTOR_SCORE_DRIFT,
        max_landmark_rmse: DEFAULT_MAX_LANDMARK_RMSE,
        min_embedding_cosine: DEFAULT_MIN_EMBEDDING_COSINE,
        max_enrolled_score_drift: DEFAULT_MAX_ENROLLED_SCORE_DRIFT,
    }
}

/// Whether both caches that the attestation names are the worker's own.
pub open spec fn caches_are_attested(request: WorkerRequest) -> bool {
    let set = variable_views(request.environment.set@);
    attested(set, "ORT_MIGRAPHX_CACHE_PATH"@) == Some(request.cache_dir@) && attested(
        set,
        "ORT_MIGRAPHX_MODEL_CACHE_PATH"@,
    ) == Some(request.cache_dir@)
}

/// Whether the inputs that came are the ones that were announced.
pub open spec fn corpus_is_announced(request: WorkerRequest) -> bool {
    &&& request.corpus.detector_digest@ == digest_text(request.corpus.detector_model@)
    &&& request.corpus.recognizer_digest@ == digest_text(request.corpus.recognizer_model@)
    &&& request.corpus_digest@ == digest_text(corpus_encoding(request.corpus))
}

/// Why a request is refused: it must name the descriptors that the worker has,
/// the cache that was attested, a threshold that can be, and the inputs that
/// came with it.
pub open spec fn request_error(request: WorkerRequest) -> Option<WorkerError> {
    if request.cache_dir@ != "/proc/self/fd/4"@ || request.profile_dir@ != "/proc/self/fd/5"@ {
        Some(WorkerError::FdPathContractMismatch)
    } else if !caches_are_attested(request) {
        Some(WorkerError::CacheAttestationMismatch)
    } else if !numbers_are_valid(request.threshold, default_gates()) {
        Some(WorkerError::NumericConfiguration)
    } else if !corpus_is_announced(request) {
        Some(WorkerError::CorpusDigestMismatch)
    } else {
        None
    }
}

/// Whether a worker does what it is asked.
pub fn check_request(request: &WorkerRequest) -> (result: Result<(), WorkerError>)
    ensures
        result == (match request_error(*request) {
            Some(error) => Err(error),
            None => Ok(()),
        }),
{
    if !str_eq(request.cache_dir.as_str(), "/proc/self/fd/4") || !str_eq(
        request.profile_dir.as_str(),
        "/proc/self/fd/5",
    ) {
        return Err(WorkerError::FdPathContractMismatch);
    }
    let set = &request.environment.set;
    let cache = match attested_value(set, "ORT_MIGRAPHX_CACHE_PATH") {
        Some(value) => str_eq(value, request.cache_dir.as_str()),
        None => false,
    };
    let model_cache = match attested_value(set, "ORT_MIGRAPHX_MODEL_CACHE_PATH") {
        Some(value) => str_eq(value, request.cache_dir.as_str()),
        None => false,
    };
    if !cache || !model_cache {
        return Err(WorkerError::CacheAttestationMismatch);
    }
    let gates = Gates {
        min_face_iou: DEFAULT_MIN_FACE_IOU,
        max_detector_score_drift: DEFAULT_MAX_DETECTOR_SCORE_DRIFT,
        max_landmark_rmse: DEFAULT_MAX_LANDMARK_RMSE,
        min_embedding_cosine: DEFAULT_MIN_EMBEDDING_COSINE,
        max_enrolled_score_drift: DEFAULT_MAX_ENROLLED_SCORE_DRIFT,
    };
    if !validate_numeric_configuration(request.threshold, gates) {
        return Err(WorkerError::NumericConfiguration);
    }
    let detector = digest_hex(request.corpus.detector_model.as_slice());
    let recognizer = digest_hex(request.corpus.recognizer_model.as_slice());
    let corpus = corpus_digest(&request.corpus);
    if !str_eq(detector.as_str(), request.corpus.detector_digest.as_str()) || !str_eq(
        recognizer.as_str(),
        request.corpus.recognizer_digest.as_str(),
    ) || !verify_corpus_digest(request.corpus_digest.as_str(), corpus.as_str()) {
        return Err(WorkerError::CorpusDigestMismatch);
    }
    Ok(())
}

/// What a worker is asked to do for one arm: to use the descriptors that it is
/// given, and the inputs and settings of the experiment.
pub fn worker_request(
    config: &ParentConfig,
    corpus: PinnedCorpus,
    corpus_digest: String,
    precision: Precision,
    phase: WorkerPhase,
    environment: &EnvironmentAttestation,
    expected_provenance: Option<Provenance>,
) -> (request: WorkerRequest)
    ensures
        request.phase == phase,
        request.precision == precision,
        request.cache_dir@ == "/proc/self/fd/4"@,
        request.profile_dir@ == "/proc/self/fd/5"@,
        request.threshold == config.threshold,
        request.configured_gpu_target@ == config.configured_gpu_target@,
        request.hsa_override@ == config.hsa_override@,
        same_environment(request.environment, *environment),
        request.expected_provenance == expected_provenance,
        request.corpus_digest == corpus_digest,
        request.corpus == corpus,
{
    WorkerRequest {
        phase,
        precision,
        cache_dir: "/proc/self/fd/4".to_owned(),
        profile_dir: "/proc/self/fd/5".to_owned(),
        threshold: config.threshold,
        configured_gpu_target: copy_text(&config.configured_gpu_target),
        hsa_override: copy_text(&config.hsa_override),
        environment: copy_environment(environment),
        expected_provenance,
        corpus_digest,
        corpus,
    }
}

proof fn attested_at(set: Seq<(Seq<char>, Seq<char>)>, key: Seq<char>, at: int)
    requires
        0 <= at < set.len(),
        set[at].0 == key,
        forall|i: int| 0 <= i < at ==> (#[trigger] set[i]).0 != key,
    ensures
        attested(set, key) == Some(set[at].1),
    decreases at,
{
    if at > 0 {
        assert(set[0].0 != key);
        let rest = set.skip(1);
        assert forall|i: int| 0 <= i < at - 1 implies (#[trigger] rest[i]).0 != key by {
            assert(rest[i] == set[i + 1]);
        }
        attested_at(rest, key, at - 1);
    }
}

/// A worker does what its parent asks of it: with the descriptors that a request
/// names, the environment that the experiment prescribes, a threshold that was
/// accepted and a corpus under its own digests, no check of the worker's fails.
pub proof fn parents_ask_what_workers_do(request: WorkerRequest, precision: Precision, gates: Gates)
    requires
        request.cache_dir@ == "/proc/self/fd/4"@,
        request.profile_dir@ == "/proc/self/fd/5"@,
        variable_views(request.environment.set@) == reviewed_set(precision, request.hsa_override@),
        numbers_are_valid(request.threshold, gates),
        corpus_is_announced(request),
    ensures
        request_error(request) is None,
{
    let set = variable_views(request.environment.set@);
    reveal_strlit("HSA_OVERRIDE_GFX_VERSION");
    reveal_strlit("LANG");
    reveal_strlit("LC_ALL");
    reveal_strlit("ORT_MIGRAPHX_BF16_ENABLE");
    reveal_strlit("ORT_MIGRAPHX_CACHE_PATH");
    reveal_strlit("ORT_MIGRAPHX_DUMP_MODEL");
    reveal_strlit("ORT_MIGRAPHX_EXHAUSTIVE_TUNE");
    reveal_strlit("ORT_MIGRAPHX_FP16_ENABLE");
    reveal_strlit("ORT_MIGRAPHX_FP8_ENABLE");
    reveal_strlit("ORT_MIGRAPHX_INT8_ENABLE");
    reveal_strlit("ORT_MIGRAPHX_MODEL_CACHE_PATH");
    let cache = "ORT_MIGRAPHX_CACHE_PATH"@;
    let model = "ORT_MIGRAPHX_MODEL_CACHE_PATH"@;
    assert forall|i: int| 0 <= i < 4 implies (#[trigger] set[i]).0 != cache by {
        assert(set[i].0.len() != 23);
    }
    attested_at(set, cache, 4);
    assert forall|i: int| 0 <= i < 10 implies (#[trigger] set[i]).0 != model by {
        assert(set[i].0.len() != 29);
    }
    attested_at(set, model, 10);
}

/// The network that a profile is of.
#[derive(Clone, Copy, Debug, PartialEq, Eq, Structural)]
pub enum ProfiledModel {
    Detector,
    Recognizer,
}

pub open spec fn profile_suffix(model: ProfiledModel) -> Seq<char> {
    match model {
        ProfiledModel::Detector => "-detector.json"@,
        ProfiledModel::Recognizer => "-recognizer.json"@,
    }
}

/// Where a worker's profile of a network goes.
pub fn profile_base(precision: Precision, phase: WorkerPhase, model: ProfiledModel) -> (path: String)
    ensures
        path@ == "/proc/self/fd/5/"@ + precision.text() + "-"@ + phase_text(phase)
            + profile_suffix(model),
{
    let mut path = "/proc/self/fd/5/".to_owned();
    path.append(precision.name());
    path.append("-");
    path.append(phase_name(phase));
    match model {
        ProfiledModel::Detector => {
            path.append("-detector.json");
        },
        ProfiledModel::Recognizer => {
            path.append("-recognizer.json");
        },
    }
    path
}

fn copy_text(text: &String) -> (copy: String)
    ensures
        copy@ == text@,
{
    text.as_str().to_owned()
}

fn copy_environment(environment: &EnvironmentAttestation) -> (copy: EnvironmentAttestation)
    ensures
        same_environment(copy, *environment),
{
    let mut set: Vec<Variable> = Vec::new();
    let mut index: usize = 0;
    while index < environment.set.len()
        invariant
            index <= environment.set@.len(),
            set@.len() == index,
            forall|i: int|
                0 <= i < index ==> #[trigger] variable_views(set@)[i] == variable_views(
                    environment.set@,
                )[i],
        decreases environment.set.len() - index,
    {
        let variable = &environment.set[index];
        let ghost before = variable_views(set@);
        set.push(Variable { key: copy_text(&variable.key), value: copy_text(&variable.value) });
        assert(variable_views(set@) =~= before.push((variable.key@, variable.value@)));
        index = index + 1;
    }
    assert(variable_views(set@) =~= variable_views(environment.set@));
    let mut cleared: Vec<String> = Vec::new();
    let mut at: usize = 0;
    while at < environment.cleared.len()
        invariant
            at <= environment.cleared@.len(),
            cleared@.len() == at,
            forall|i: int|
                0 <= i < at ==> #[trigger] text_views(cleared@)[i] == text_views(
                    environment.cleared@,
                )[i],
        decreases environment.cleared.len() - at,
    {
        let ghost before = text_views(cleared@);
        cleared.push(copy_text(&environment.cleared[at]));
        assert(text_views(cleared@) =~= before.push(environment.cleared@[at as int]@));
        at = at + 1;
    }
    assert(text_views(cleared@) =~= text_views(environment.cleared@));
    EnvironmentAttestation { set, cleared }
}

/// What a worker says of itself: its inputs and settings as it was asked to use
/// them, and the runtime that it found.
pub fn worker_provenance(
    request: &WorkerRequest,
    api_version: u32,
    runtime_version: String,
    threads: usize,
    stack: ProviderStackProvenance,
) -> (provenance: Provenance)
    ensures
        provenance.precision == request.precision,
        provenance.detector_digest@ == digest_text(request.corpus.detector_model@),
        provenance.recognizer_digest@ == digest_text(request.corpus.recognizer_model@),
        provenance.ort_crate_version@ == ORT_CRATE_VERSION@,
        provenance.ort_api_version == api_version,
        provenance.ort_runtime_version == runtime_version,
        provenance.configured_gpu_target@ == request.configured_gpu_target@,
        provenance.hsa_override@ == request.hsa_override@,
        provenance.recognition_threshold_bits == request.threshold,
        provenance.inference_threads == threads,
        provenance.provider_name@ == "migraphx"@,
        provenance.graph_optimization_level@ == "level2"@,
        provenance.provider_api_fp16 == (request.precision == Precision::Fp16),
        !provenance.provider_api_fp8,
        !provenance.provider_api_int8,
        !provenance.provider_api_exhaustive_tune,
        same_environment(provenance.environment, request.environment),
        provenance.corpus_digest@ == digest_text(corpus_encoding(request.corpus)),
        provenance.provider_stack == stack,
{
    Provenance {
        precision: request.precision,
        detector_digest: digest_hex(request.corpus.detector_model.as_slice()),
        recognizer_digest: digest_hex(request.corpus.recognizer_model.as_slice()),
        ort_crate_version: ORT_CRATE_VERSION.to_owned(),
        ort_api_version: api_version,
        ort_runtime_version: runtime_version,
        configured_gpu_target: copy_text(&request.configured_gpu_target),
        hsa_override: copy_text(&request.hsa_override),
        recognition_threshold_bits: request.threshold,
        inference_threads: threads,
        provider_name: "migraphx".to_owned(),
        graph_optimization_level: "level2".to_owned(),
        provider_api_fp16: request.precision.fp16(),
        provider_api_fp8: false,
        provider_api_int8: false,
        provider_api_exhaustive_tune: false,
        environment: copy_environment(&request.environment),
        corpus_digest: corpus_digest(&request.corpus),
        provider_stack: stack,
    }
}

/// Why a worker that was told what to expect of itself stops.
pub open spec fn expectation_error(expected: Option<Provenance>, actual: Provenance) -> Option<
    WorkerError,
> {
    match expected {
        None => None,
        Some(provenance) => if !is_complete(provenance.provider_stack) || !is_complete(
            actual.provider_stack,
        ) {
            Some(WorkerError::ProviderStack(StackError::Incomplete))
        } else if !same_stack(provenance.provider_stack, actual.provider_stack) {
            Some(WorkerError::ProviderStack(StackError::Mismatch))
        } else if !same_provenance(provenance, actual) {
            Some(WorkerError::ProvenanceMismatch)
        } else {
            None
        },
    }
}

/// Whether a worker is what it was expected to be. One that was not told may be
/// anything.
pub fn check_expectation(expected: &Option<Provenance>, actual: &Provenance) -> (result: Result<
    (),
    WorkerError,
>)
    ensures
        result == (match expectation_error(*expected, *actual) {
            Some(error) => Err(error),
            None => Ok(()),
        }),
{
    match expected {
        None => Ok(()),
        Some(provenance) => {
            match verify_provider_stack_match(&provenance.provider_stack, &actual.provider_stack) {
                Ok(()) => {},
                Err(error) => {
                    return Err(WorkerError::ProviderStack(error));
                },
            }
            if !provenance_matches(provenance, actual) {
                return Err(WorkerError::ProvenanceMismatch);
            }
            Ok(())
        },
    }
}

/// What a worker does next.
#[derive(Clone, Copy, Debug, PartialEq, Eq, Structural)]
pub enum WorkerStep {
    CheckEnvironment,
    CheckCacheDirectory,
    CheckProfileDirectory,
    CheckRequest,
    BuildEngine,
    WarmDetector,
    WarmRecognizer,
    ParseEnrolled,
    Measure(usize),
    EndProfiling,
    ParseDetectorProfile,
    ParseRecognizerProfile,
    InspectRuntime,
    CheckExpectation,
    Respond,
    Failed,
}

/// A worker at work.
#[derive(Clone, Copy, Debug, PartialEq, Eq, Structural)]
pub struct WorkerRun {
    pub phase: WorkerPhase,
    pub fixtures: usize,
    pub has_enrolled: bool,
    pub step: WorkerStep,
}

/// How many fixtures a worker measures: only one that has a cache to load
/// measures any.
pub open spec fn measured_count(phase: WorkerPhase, fixtures: usize) -> usize {
    match phase {
        WorkerPhase::CacheGeneration => 0,
        WorkerPhase::LoadedCacheMeasurement => fixtures,
    }
}

/// The step once nothing but fixtures from `at` on is left to measure.
pub open spec fn measuring(run: WorkerRun, at: int) -> WorkerStep {
    if at < measured_count(run.phase, run.fixtures) {
        WorkerStep::Measure(at as usize)
    } else {
        WorkerStep::EndProfiling
    }
}

/// The step behind one that succeeded.
pub open spec fn step_after(run: WorkerRun) -> WorkerStep {
    match run.step {
        WorkerStep::CheckEnvironment => WorkerStep::CheckCacheDirectory,
        WorkerStep::CheckCacheDirectory => WorkerStep::CheckProfileDirectory,
        WorkerStep::CheckProfileDirectory => WorkerStep::CheckRequest,
        WorkerStep::CheckRequest => WorkerStep::BuildEngine,
        WorkerStep::BuildEngine => WorkerStep::WarmDetector,
        WorkerStep::WarmDetector => WorkerStep::WarmRecognizer,
        WorkerStep::WarmRecognizer => if run.has_enrolled {
            WorkerStep::ParseEnrolled
        } else {
            measuring(run, 0)
        },
        WorkerStep::ParseEnrolled => measuring(run, 0),
        WorkerStep::Measure(at) => measuring(run, at + 1),
        WorkerStep::EndProfiling => WorkerStep::ParseDetectorProfile,
        WorkerStep::ParseDetectorProfile => WorkerStep::ParseRecognizerProfile,
        WorkerStep::ParseRecognizerProfile => WorkerStep::InspectRuntime,
        WorkerStep::InspectRuntime => WorkerStep::CheckExpectation,
        WorkerStep::CheckExpectation => WorkerStep::Respond,
        WorkerStep::Respond => WorkerStep::Respond,
        WorkerStep::Failed => WorkerStep::Failed,
    }
}

/// The place of a step, counted so that each step that is taken adds to it.
pub open spec fn worker_place(run: WorkerRun) -> int {
    match run.step {
        WorkerStep::CheckEnvironment => 0,
        WorkerStep::CheckCacheDirectory => 1,
        WorkerStep::CheckProfileDirectory => 2,
        WorkerStep::CheckRequest => 3,
        WorkerStep::BuildEngine => 4,
        WorkerStep::WarmDetector => 5,
        WorkerStep::WarmRecognizer => 6,
        WorkerStep::ParseEnrolled => 7,
        WorkerStep::Measure(at) => 8 + at,
        WorkerStep::EndProfiling => 8 + run.fixtures,
        WorkerStep::ParseDetectorProfile => 9 + run.fixtures,
        WorkerStep::ParseRecognizerProfile => 10 + run.fixtures,
        WorkerStep::InspectRuntime => 11 + run.fixtures,
        WorkerStep::CheckExpectation => 12 + run.fixtures,
        WorkerStep::Respond => 13 + run.fixtures,
        WorkerStep::Failed => -1,
    }
}

impl WorkerRun {
    /// A fixture that is measured is one that there is.
    pub open spec fn wf(&self) -> bool {
        self.step matches WorkerStep::Measure(at) ==> at < measured_count(self.phase, self.fixtures)
    }

    pub fn begin(phase: WorkerPhase, fixtures: usize, has_enrolled: bool) -> (run: Self)
        ensures
            run.wf(),
            run == (WorkerRun { phase, fixtures, has_enrolled, step: WorkerStep::CheckEnvironment }),
    {
        WorkerRun { phase, fixtures, has_enrolled, step: WorkerStep::CheckEnvironment }
    }

    fn measure_from(&self, at: usize) -> (step: WorkerStep)
        ensures
            step == measuring(*self, at as int),
    {
        let count: usize = match self.phase {
            WorkerPhase::CacheGeneration => 0,
            WorkerPhase::LoadedCacheMeasurement => self.fixtures,
        };
        if at < count {
            WorkerStep::Measure(at)
        } else {
            WorkerStep::EndProfiling
        }
    }

    /// Goes on after a step that succeeded or failed.
    pub fn after(&mut self, succeeded: bool)
        requires
            old(self).wf(),
        ensures
            final(self).wf(),
            final(self).phase == old(self).phase,
            final(self).fixtures == old(self).fixtures,
            final(self).has_enrolled == old(self).has_enrolled,
            final(self).step == (if succeeded || old(self).step == WorkerStep::Respond {
                step_after(*old(self))
            } else {
                WorkerStep::Failed
            }),
            succeeded && old(self).step != WorkerStep::Respond && old(self).step
                != WorkerStep::Failed ==> worker_place(*old(self)) < worker_place(*final(self)),
    {
        if !succeeded && self.step != WorkerStep::Respond {
            self.step = WorkerStep::Failed;
            return;
        }
        self.step = match self.step {
            WorkerStep::CheckEnvironment => WorkerStep::CheckCacheDirectory,
            WorkerStep::CheckCacheDirectory => WorkerStep::CheckProfileDirectory,
            WorkerStep::CheckProfileDirectory => WorkerStep::CheckRequest,
            WorkerStep::CheckRequest => WorkerStep::BuildEngine,
            WorkerStep::BuildEngine => WorkerStep::WarmDetector,
            WorkerStep::WarmDetector => WorkerStep::WarmRecognizer,
            WorkerStep::WarmRecognizer => {
                if self.has_enrolled {
                    WorkerStep::ParseEnrolled
                } else {
                    self.measure_from(0)
                }
            },
            WorkerStep::ParseEnrolled => self.measure_from(0),
            WorkerStep::Measure(at) => self.measure_from(at + 1),
            WorkerStep::EndProfiling => WorkerStep::ParseDetectorProfile,
            WorkerStep::ParseDetectorProfile => WorkerStep::ParseRecognizerProfile,
            WorkerStep::ParseRecognizerProfile => WorkerStep::InspectRuntime,
            WorkerStep::InspectRuntime => WorkerStep::CheckExpectation,
            WorkerStep::CheckExpectation => WorkerStep::Respond,
            WorkerStep::Respond => WorkerStep::Respond,
            WorkerStep::Failed => WorkerStep::Failed,
        };
    }
}

/// A worker builds no engine before its surroundings and its request have been
/// checked, measures only where it has a cache to load, and responds only after
/// it has been compared with what was expected.
pub proof fn workers_check_before_they_work(run: WorkerRun)
    requires
        run.wf(),
    ensures
        step_after(run) == WorkerStep::BuildEngine ==> run.step == WorkerStep::CheckRequest,
        step_after(run) == WorkerStep::CheckRequest ==> run.step
            == WorkerStep::CheckProfileDirectory,
        step_after(run) matches WorkerStep::Measure(at) ==> run.phase
            == WorkerPhase::LoadedCacheMeasurement && at < run.fixtures,
        step_after(run) == WorkerStep::Respond ==> run.step == WorkerStep::CheckExpectation
            || run.step == WorkerStep::Respond,
{
}


/// A worker goes through its steps in order and leaves none out: an enrolled model is
/// parsed where there is one, and pictures are measured one after the other, all of them
/// where the cache is loaded and none where it is made.
pub proof fn workers_leave_no_step_out(run: WorkerRun)
    requires
        run.wf(),
    ensures
        run.step == WorkerStep::CheckEnvironment ==> step_after(run)
            == WorkerStep::CheckCacheDirectory,
        run.step == WorkerStep::CheckCacheDirectory ==> step_after(run)
            == WorkerStep::CheckProfileDirectory,
        run.step == WorkerStep::CheckProfileDirectory ==> step_after(run)
            == WorkerStep::CheckRequest,
        run.step == WorkerStep::CheckRequest ==> step_after(run) == WorkerStep::BuildEngine,
        run.step == WorkerStep::BuildEngine ==> step_after(run) == WorkerStep::WarmDetector,
        run.step == WorkerStep::WarmDetector ==> step_after(run) == WorkerStep::WarmRecognizer,
        run.step == WorkerStep::WarmRecognizer && run.has_enrolled ==> step_after(run)
            == WorkerStep::ParseEnrolled,
        (run.step == WorkerStep::WarmRecognizer && !run.has_enrolled) || run.step
            == WorkerStep::ParseEnrolled ==> step_after(run) == (if run.phase
            == WorkerPhase::LoadedCacheMeasurement && run.fixtures > 0 {
            WorkerStep::Measure(0)
        } else {
            WorkerStep::EndProfiling
        }),
        run.step matches WorkerStep::Measure(at) ==> step_after(run) == (if at + 1 < run.fixtures {
            WorkerStep::Measure((at + 1) as usize)
        } else {
            WorkerStep::EndProfiling
        }),
        run.step == WorkerStep::EndProfiling ==> step_after(run)
            == WorkerStep::ParseDetectorProfile,
        run.step == WorkerStep::ParseDetectorProfile ==> step_after(run)
            == WorkerStep::ParseRecognizerProfile,
        run.step == WorkerStep::ParseRecognizerProfile ==> step_after(run)
            == WorkerStep::InspectRuntime,
        run.step == WorkerStep::InspectRuntime ==> step_after(run) == WorkerStep::CheckExpectation,
        run.step == WorkerStep::CheckExpectation ==> step_after(run) == WorkerStep::Respond,
{
}

/// What is attested for a variable is its first entry, and nothing where it has none.
pub proof fn first_entries_are_attested(
    set: Seq<(Seq<char>, Seq<char>)>,
    key: Seq<char>,
    at: int,
)
    requires
        0 <= at <= set.len(),
        forall|i: int| 0 <= i < at ==> (#[trigger] set[i]).0 != key,
    ensures
        at == set.len() ==> attested(set, key) is None,
        at < set.len() && set[at].0 == key ==> attested(set, key) == Some(set[at].1),
    decreases at,
{
    if at > 0 {
        let rest = set.skip(1);
        assert(set[0].0 != key);
        assert forall|i: int| 0 <= i < at - 1 implies (#[trigger] rest[i]).0 != key by {
            assert(set[i + 1] == rest[i]);
        }
        first_entries_are_attested(rest, key, at - 1);
    }
}

/// A request is accepted exactly where both directories are the ones that the worker is
/// given, both cache variables name the first, the threshold is in range, and the
/// digests are those of what was sent.
pub proof fn accepted_requests_are_consistent(request: WorkerRequest)
    ensures
        request_error(request) is None <==> {
            let set = variable_views(request.environment.set@);
            &&& request.cache_dir@ == "/proc/self/fd/4"@ && request.profile_dir@
                == "/proc/self/fd/5"@
            &&& attested(set, "ORT_MIGRAPHX_CACHE_PATH"@) == Some("/proc/self/fd/4"@)
            &&& attested(set, "ORT_MIGRAPHX_MODEL_CACHE_PATH"@) == Some("/proc/self/fd/4"@)
            &&& request.threshold <= 0x3f80_0000 || request.threshold == 0x8000_0000
            &&& request.corpus.detector_digest@ == digest_text(request.corpus.detector_model@)
            &&& request.corpus.recognizer_digest@ == digest_text(request.corpus.recognizer_model@)
            &&& request.corpus_digest@ == digest_text(corpus_encoding(request.corpus))
        },
{
    crate::fp16_args::valid_numbers_are_in_range(request.threshold, default_gates());
}

/// Where nothing is expected, everything is accepted; else exactly what is complete and
/// the same in everything.
pub proof fn expectations_are_met_in_everything(expected: Option<Provenance>, actual: Provenance)
    ensures
        expectation_error(expected, actual) is None <==> match expected {
            None => true,
            Some(wanted) => same_provenance(wanted, actual) && is_complete(
                actual.provider_stack,
            ),
        },
{
    if expected is Some && same_provenance(expected->0, actual) {
        assert(same_stack(expected->0.provider_stack, actual.provider_stack));
    }
}


/// A profile's name tells the precision, the phase and the model.
pub proof fn profiles_are_named_after_their_run(precision: Precision, phase: WorkerPhase)
    ensures
        precision == Precision::Fp32 ==> precision.text() == "fp32"@,
        precision == Precision::Fp16 ==> precision.text() == "fp16"@,
        phase == WorkerPhase::CacheGeneration ==> phase_text(phase) == "generate"@,
        phase == WorkerPhase::LoadedCacheMeasurement ==> phase_text(phase) == "measure"@,
        profile_suffix(ProfiledModel::Detector) == "-detector.json"@,
        profile_suffix(ProfiledModel::Recognizer) == "-recognizer.json"@,
{
}

} // verus!
