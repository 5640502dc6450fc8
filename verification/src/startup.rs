//! Daemon startup: the order of its boundaries, and what each outcome leads to.
use crate::mode1_key::{CredentialSourceIdentity, EmbeddingSecurityMode, StartupKeyContext};
use crate::options::RunMode;
use crate::text::{ascii_lowercase, decimal, lowercase, push_decimal, str_eq, trim, trimmed};
use vstd::prelude::*;
use vstd::string::*;

verus! {

/// A provider name as configured, without surrounding white space, in small letters.
pub open spec fn normalized(value: Seq<char>) -> Seq<char> {
    lowercase(trim(value))
}

pub fn normalize_provider(value: &str) -> (name: String)
    ensures
        name@ == normalized(value@),
{
    let inner = trimmed(value);
    ascii_lowercase(inner.as_str())
}

/// The provider is the CPU although another one was asked for.
pub open spec fn fell_back_to_cpu(requested: Seq<char>, registered: Seq<char>) -> bool {
    normalized(requested) != "cpu"@ && normalized(registered) == "cpu"@
}

pub fn registered_preference_is_cpu(requested_provider: &str, registered_preference: &str) -> (is_cpu:
    bool)
    ensures
        is_cpu == fell_back_to_cpu(requested_provider@, registered_preference@),
{
    let requested = normalize_provider(requested_provider);
    let registered = normalize_provider(registered_preference);
    !str_eq(requested.as_str(), "cpu") && str_eq(registered.as_str(), "cpu")
}

/// A prewarm marker is due only for the accelerator that it speaks of, asked
/// for by name or by `auto`, registered, and not given up for the CPU.
pub open spec fn marker_is_due(
    requested: Seq<char>,
    registered: Seq<char>,
    explicit_cpu_retry: bool,
) -> bool {
    (normalized(requested) == "migraphx"@ || normalized(requested) == "auto"@)
        && !explicit_cpu_retry && normalized(registered) == "migraphx"@
}

pub fn should_write_accelerator_prewarm_marker(
    requested_provider: &str,
    registered_preference: &str,
    explicit_cpu_retry: bool,
) -> (due: bool)
    ensures
        due == marker_is_due(requested_provider@, registered_preference@, explicit_cpu_retry),
{
    let requested = normalize_provider(requested_provider);
    let registered = normalize_provider(registered_preference);
    (str_eq(requested.as_str(), "migraphx") || str_eq(requested.as_str(), "auto"))
        && !explicit_cpu_retry && str_eq(registered.as_str(), "migraphx")
}

pub open spec fn bool_chars(value: bool) -> Seq<char> {
    if value {
        "true"@
    } else {
        "false"@
    }
}

fn bool_text(value: bool) -> (text: &'static str)
    ensures
        text@ == bool_chars(value),
{
    if value {
        "true"
    } else {
        "false"
    }
}

/// The text of the prewarm marker.
pub open spec fn marker_text(
    requested: Seq<char>,
    registered: Seq<char>,
    explicit_cpu_retry: bool,
) -> Seq<char> {
    "howy accelerator registration+self-test completed\nrequested_provider="@ + requested
        + "\nregistered_preferred_provider="@ + registered + "\nexplicit_cpu_retry="@ + bool_chars(
        explicit_cpu_retry,
    )
        + "\nplacement_verified=false\nprovider_note=registration+self-test is not graph-placement evidence\ncache_note=generated cache files remain placement-unverified; clear cached .mxr files after model, runtime, provider, or GPU changes\n"@
}

pub fn prewarm_marker_contents(
    requested_provider: &str,
    registered_preferred_provider: &str,
    explicit_cpu_retry: bool,
) -> (contents: String)
    ensures
        contents@ == marker_text(
            requested_provider@,
            registered_preferred_provider@,
            explicit_cpu_retry,
        ),
{
    let mut contents =
        "howy accelerator registration+self-test completed\nrequested_provider=".to_owned();
    contents.append(requested_provider);
    contents.append("\nregistered_preferred_provider=");
    contents.append(registered_preferred_provider);
    contents.append("\nexplicit_cpu_retry=");
    contents.append(bool_text(explicit_cpu_retry));
    contents.append(
        "\nplacement_verified=false\nprovider_note=registration+self-test is not graph-placement evidence\ncache_note=generated cache files remain placement-unverified; clear cached .mxr files after model, runtime, provider, or GPU changes\n",
    );
    contents
}

/// The line that a prewarm run ends with.
pub open spec fn prewarm_line(
    requested: Seq<char>,
    registered: Seq<char>,
    explicit_cpu_retry: bool,
) -> Seq<char> {
    "PREWARM_RESULT requested_provider="@ + requested + " registered_preferred_provider="@
        + registered + " explicit_cpu_retry="@ + bool_chars(explicit_cpu_retry)
        + " placement_verified=false fallback_to_cpu="@ + bool_chars(
        explicit_cpu_retry || fell_back_to_cpu(requested, registered),
    )
}

pub fn prewarm_result_line(
    requested_provider: &str,
    registered_preferred_provider: &str,
    explicit_cpu_retry: bool,
) -> (line: String)
    ensures
        line@ == prewarm_line(
            requested_provider@,
            registered_preferred_provider@,
            explicit_cpu_retry,
        ),
{
    let mut line = "PREWARM_RESULT requested_provider=".to_owned();
    line.append(requested_provider);
    line.append(" registered_preferred_provider=");
    line.append(registered_preferred_provider);
    line.append(" explicit_cpu_retry=");
    line.append(bool_text(explicit_cpu_retry));
    line.append(" placement_verified=false fallback_to_cpu=");
    let fallback = explicit_cpu_retry || registered_preference_is_cpu(
        requested_provider,
        registered_preferred_provider,
    );
    line.append(bool_text(fallback));
    line
}

/// The line that a storage readiness run ends with.
pub fn storage_readiness_line(mode: EmbeddingSecurityMode) -> (line: String)
    ensures
        line@ == "STORAGE_READINESS_RESULT mode="@ + decimal(mode.number() as nat)
            + " ready=true decrypted_records=0 cached_records=0 key_record_compatibility=unproven"@,
{
    let mut line = "STORAGE_READINESS_RESULT mode=".to_owned();
    push_decimal(&mut line, mode.code() as u64);
    line.append(" ready=true decrypted_records=0 cached_records=0 key_record_compatibility=unproven");
    line
}

/// How an inference engine came about.
#[derive(Clone, Copy, Debug, PartialEq, Eq, Structural)]
pub struct ProviderAttempts {
    pub explicit_cpu_retry: bool,
    pub attempts: u32,
    pub discarded: u32,
}

/// What follows an attempt to initialize inference.
#[derive(Clone, Copy, Debug, PartialEq, Eq, Structural)]
pub enum AttemptStep {
    Ready(ProviderAttempts),
    RetryOnCpu,
    Failed,
}

/// What follows the attempt with the configured provider: a failure is retried
/// on the CPU once, unless it was the CPU that failed.
pub fn after_first_attempt(configured_provider: &str, succeeded: bool) -> (step: AttemptStep)
    ensures
        step == (if succeeded {
            AttemptStep::Ready(
                ProviderAttempts { explicit_cpu_retry: false, attempts: 1, discarded: 0 },
            )
        } else if normalized(configured_provider@) == "cpu"@ {
            AttemptStep::Failed
        } else {
            AttemptStep::RetryOnCpu
        }),
{
    if succeeded {
        return AttemptStep::Ready(
            ProviderAttempts { explicit_cpu_retry: false, attempts: 1, discarded: 0 },
        );
    }
    let configured = normalize_provider(configured_provider);
    if str_eq(configured.as_str(), "cpu") {
        AttemptStep::Failed
    } else {
        AttemptStep::RetryOnCpu
    }
}

/// What follows the retry on the CPU.
pub fn after_cpu_retry(succeeded: bool) -> (step: AttemptStep)
    ensures
        step == (if succeeded {
            AttemptStep::Ready(
                ProviderAttempts { explicit_cpu_retry: true, attempts: 2, discarded: 1 },
            )
        } else {
            AttemptStep::Failed
        }),
{
    if succeeded {
        AttemptStep::Ready(
            ProviderAttempts { explicit_cpu_retry: true, attempts: 2, discarded: 1 },
        )
    } else {
        AttemptStep::Failed
    }
}

/// Which storage backend is built.
#[derive(Clone, Copy, Debug, PartialEq, Eq, Structural)]
pub enum StorageKind {
    Plaintext,
    CachedAead,
}

#[derive(Clone, Copy, Debug, PartialEq, Eq, Structural)]
pub enum StorageStartupError {
    PlaintextNeedsRecognizer,
    Mode1NeedsRecognizer,
    Mode2Unimplemented,
    Mode3Reserved,
    KeyContextMismatch,
}

impl StorageStartupError {
    pub open spec fn text(self) -> Seq<char> {
        match self {
            StorageStartupError::PlaintextNeedsRecognizer =>
                "plaintext storage requires a pinned recognizer model"@,
            StorageStartupError::Mode1NeedsRecognizer =>
                "mode 1 storage requires a pinned recognizer model"@,
            StorageStartupError::Mode2Unimplemented =>
                "embedding storage mode 2 is not implemented in this daemon build"@,
            StorageStartupError::Mode3Reserved =>
                "embedding storage mode 3 is reserved and unavailable"@,
            StorageStartupError::KeyContextMismatch =>
                "storage startup key context does not match the configured mode"@,
        }
    }

    pub fn message(self) -> (message: &'static str)
        ensures
            message@ == self.text(),
    {
        match self {
            StorageStartupError::PlaintextNeedsRecognizer =>
                "plaintext storage requires a pinned recognizer model",
            StorageStartupError::Mode1NeedsRecognizer =>
                "mode 1 storage requires a pinned recognizer model",
            StorageStartupError::Mode2Unimplemented =>
                "embedding storage mode 2 is not implemented in this daemon build",
            StorageStartupError::Mode3Reserved =>
                "embedding storage mode 3 is reserved and unavailable",
            StorageStartupError::KeyContextMismatch =>
                "storage startup key context does not match the configured mode",
        }
    }
}

/// Which backend the configured mode and the loaded key lead to.
pub fn select_storage_backend(
    mode: EmbeddingSecurityMode,
    key_context: &StartupKeyContext,
    recognizer_pinned: bool,
) -> (kind: Result<StorageKind, StorageStartupError>)
    ensures
        kind == (match mode {
            EmbeddingSecurityMode::AeadEphemeral => Err(StorageStartupError::Mode2Unimplemented),
            EmbeddingSecurityMode::ReservedFuture => Err(StorageStartupError::Mode3Reserved),
            EmbeddingSecurityMode::Plaintext => if *key_context is Mode1 {
                Err(StorageStartupError::KeyContextMismatch)
            } else if recognizer_pinned {
                Ok(StorageKind::Plaintext)
            } else {
                Err(StorageStartupError::PlaintextNeedsRecognizer)
            },
            EmbeddingSecurityMode::AeadCached => if *key_context is Mode0 {
                Err(StorageStartupError::KeyContextMismatch)
            } else if recognizer_pinned {
                Ok(StorageKind::CachedAead)
            } else {
                Err(StorageStartupError::Mode1NeedsRecognizer)
            },
        }),
{
    match (mode, key_context) {
        (EmbeddingSecurityMode::Plaintext, StartupKeyContext::Mode0) => {
            if recognizer_pinned {
                Ok(StorageKind::Plaintext)
            } else {
                Err(StorageStartupError::PlaintextNeedsRecognizer)
            }
        },
        (EmbeddingSecurityMode::AeadCached, StartupKeyContext::Mode1(_)) => {
            if recognizer_pinned {
                Ok(StorageKind::CachedAead)
            } else {
                Err(StorageStartupError::Mode1NeedsRecognizer)
            }
        },
        (EmbeddingSecurityMode::AeadEphemeral, _) => Err(StorageStartupError::Mode2Unimplemented),
        (EmbeddingSecurityMode::ReservedFuture, _) => Err(StorageStartupError::Mode3Reserved),
        _ => Err(StorageStartupError::KeyContextMismatch),
    }
}

#[derive(Clone, Copy, Debug, PartialEq, Eq, Structural)]
pub enum OrderedStartupError<E> {
    Storage(E),
    Inference(E),
}

/// `storage` can turn `key` into `built`.
pub open spec fn stored<K, S, E, F: FnOnce(K) -> Result<S, E>>(
    storage: F,
    key: K,
    built: Result<S, E>,
) -> bool {
    call_ensures(storage, (key,), built)
}

/// `inference` can give `built`.
pub open spec fn inferred<I, E, G: FnOnce() -> Result<I, E>>(
    inference: G,
    built: Result<I, E>,
) -> bool {
    call_ensures(inference, (), built)
}

/// Builds storage from the key, and inference only after storage has been built.
pub fn initialize_runtime_ordered<K, S, I, E, F, G>(key: K, storage: F, inference: G) -> (started:
    Result<(S, I), OrderedStartupError<E>>) where
    F: FnOnce(K) -> Result<S, E>,
    G: FnOnce() -> Result<I, E>,

    requires
        call_requires(storage, (key,)),
        (exists|built: S| #[trigger] stored(storage, key, Ok::<S, E>(built))) ==> call_requires(
            inference,
            (),
        ),
    ensures
        match started {
            Err(OrderedStartupError::Storage(error)) => stored(storage, key, Err(error)),
            Err(OrderedStartupError::Inference(error)) => inferred(inference, Err(error)) && exists|
                built: S,
            | #[trigger] stored(storage, key, Ok::<S, E>(built)),
            Ok((built, engine)) => stored(storage, key, Ok(built)) && inferred(
                inference,
                Ok(engine),
            ),
        },
{
    let ghost given = key;
    let built = storage(key);
    assert(stored(storage, given, built));
    match built {
        Err(error) => Err(OrderedStartupError::Storage(error)),
        Ok(backend) => {
            let engine = inference();
            assert(inferred(inference, engine));
            match engine {
                Err(error) => Err(OrderedStartupError::Inference(error)),
                Ok(ready) => Ok((backend, ready)),
            }
        },
    }
}

/// The boundaries of a run.
#[derive(Clone, Copy, Debug, PartialEq, Eq, Structural)]
pub enum StartupStage {
    SetPrivateUmask,
    InitializeProcess,
    ValidateAccount,
    ReportAccount,
    InvocationIdentity,
    OpenBinary,
    InstallSignals,
    OpenConfig,
    LoadKey,
    ProbeCredential,
    ResolveRecognizer,
    Cleanup,
    ConstructStorage,
    ReportReadiness,
    ResolveModels,
    InitializeInference,
    WriteMarker,
    ReportPrewarm,
    CreatePrompts,
    ProfileCamera,
    ServiceCleanup,
    OpenListener,
    RunService,
}

impl StartupStage {
    /// A number that grows along every run.
    pub open spec fn rank(self) -> int {
        match self {
            StartupStage::SetPrivateUmask => 0,
            StartupStage::InitializeProcess => 1,
            StartupStage::ValidateAccount => 2,
            StartupStage::ReportAccount => 3,
            StartupStage::InvocationIdentity => 4,
            StartupStage::OpenBinary => 5,
            StartupStage::InstallSignals => 6,
            StartupStage::OpenConfig => 7,
            StartupStage::LoadKey => 8,
            StartupStage::ProbeCredential => 9,
            StartupStage::ResolveRecognizer => 10,
            StartupStage::Cleanup => 11,
            StartupStage::ConstructStorage => 12,
            StartupStage::ReportReadiness => 13,
            StartupStage::ResolveModels => 14,
            StartupStage::InitializeInference => 15,
            StartupStage::WriteMarker => 16,
            StartupStage::ReportPrewarm => 17,
            StartupStage::CreatePrompts => 18,
            StartupStage::ProfileCamera => 19,
            StartupStage::ServiceCleanup => 20,
            StartupStage::OpenListener => 21,
            StartupStage::RunService => 22,
        }
    }
}

/// What a boundary returned.
#[derive(Clone, Copy, Debug, PartialEq, Eq, Structural)]
pub enum StartupReply {
    Failed,
    Done,
    Settings { perf_trace: bool },
    Config { disabled: bool, embedding_mode: EmbeddingSecurityMode },
    Key { credential: Option<CredentialSourceIdentity> },
    Probed { credential: Option<CredentialSourceIdentity> },
    Storage { ready: bool },
}

#[derive(Clone, Copy, Debug, PartialEq, Eq, Structural)]
pub enum StartupFailure {
    Boundary(StartupStage),
    CredentialChanged,
    StorageNotReady,
}

/// The performance record that a finished run leaves, where tracing is on.
#[derive(Clone, Copy, Debug, PartialEq, Eq, Structural)]
pub enum StartupTrace {
    Nothing,
    ConfigError,
    Disabled,
    InferenceError,
    PrewarmReady,
}

#[derive(Clone, Copy, Debug, PartialEq, Eq, Structural)]
pub struct StartupEnd {
    pub failure: Option<StartupFailure>,
    pub trace: StartupTrace,
}

/// A run at its next boundary, with what the boundaries before it returned.
#[derive(Clone, Copy, Debug, PartialEq, Eq, Structural)]
pub struct Startup {
    pub mode: RunMode,
    pub stage: StartupStage,
    pub perf_trace: bool,
    pub disabled: bool,
    pub embedding_mode: EmbeddingSecurityMode,
    pub credential: Option<CredentialSourceIdentity>,
}

#[derive(Clone, Copy, Debug, PartialEq, Eq, Structural)]
pub enum StartupStep {
    Perform(Startup),
    Finished(StartupEnd),
}

/// Where a run of `mode` starts.
pub open spec fn first_stage(mode: RunMode) -> StartupStage {
    if mode == RunMode::PrewarmOnly || mode == RunMode::StorageReadinessOnly {
        StartupStage::SetPrivateUmask
    } else {
        StartupStage::InitializeProcess
    }
}

pub open spec fn initial_run(mode: RunMode) -> Startup {
    Startup {
        mode,
        stage: first_stage(mode),
        perf_trace: false,
        disabled: false,
        embedding_mode: EmbeddingSecurityMode::Plaintext,
        credential: None,
    }
}

impl Startup {
    /// Which boundaries a run may stand at, by its mode and configuration.
    pub open spec fn wf(self) -> bool {
        let rank = self.stage.rank();
        &&& self.mode == RunMode::ValidateFfmpegAccount ==> rank <= 3
        &&& self.stage == StartupStage::ValidateAccount || self.stage
            == StartupStage::ReportAccount ==> self.mode == RunMode::ValidateFfmpegAccount
        &&& self.stage == StartupStage::InstallSignals ==> self.mode == RunMode::Serve
        &&& self.stage == StartupStage::ProbeCredential ==> self.credential is Some
        &&& self.stage == StartupStage::ReportReadiness ==> self.mode
            == RunMode::StorageReadinessOnly
        &&& self.mode == RunMode::StorageReadinessOnly ==> rank <= 13
        &&& self.mode == RunMode::Serve && self.disabled ==> rank <= 12
        &&& self.stage == StartupStage::WriteMarker || self.stage == StartupStage::ReportPrewarm
            ==> self.mode == RunMode::PrewarmOnly
        &&& rank >= 18 ==> self.mode == RunMode::Serve
    }

    pub open spec fn at(self, stage: StartupStage) -> StartupStep {
        StartupStep::Perform(Startup { stage, ..self })
    }

    pub open spec fn ended(self, trace: StartupTrace) -> StartupStep {
        StartupStep::Finished(
            StartupEnd {
                failure: None,
                trace: if self.perf_trace {
                    trace
                } else {
                    StartupTrace::Nothing
                },
            },
        )
    }

    pub open spec fn failed(self, failure: StartupFailure) -> StartupStep {
        let trace = match failure {
            StartupFailure::Boundary(StartupStage::OpenConfig) => StartupTrace::ConfigError,
            StartupFailure::Boundary(StartupStage::InitializeInference) =>
            StartupTrace::InferenceError,
            _ => StartupTrace::Nothing,
        };
        StartupStep::Finished(
            StartupEnd {
                failure: Some(failure),
                trace: if self.perf_trace {
                    trace
                } else {
                    StartupTrace::Nothing
                },
            },
        )
    }

    /// What follows `reply` of the boundary that the run stands at.
    pub open spec fn following(self, reply: StartupReply) -> StartupStep {
        match (self.stage, reply) {
            (StartupStage::SetPrivateUmask, StartupReply::Done) => self.at(
                StartupStage::InitializeProcess,
            ),
            (StartupStage::InitializeProcess, StartupReply::Settings { perf_trace }) => {
                let run = Startup { perf_trace, ..self };
                if self.mode == RunMode::ValidateFfmpegAccount {
                    run.at(StartupStage::ValidateAccount)
                } else {
                    run.at(StartupStage::InvocationIdentity)
                }
            },
            (StartupStage::ValidateAccount, StartupReply::Done) => self.at(
                StartupStage::ReportAccount,
            ),
            (StartupStage::ReportAccount, StartupReply::Done) => self.ended(StartupTrace::Nothing),
            (StartupStage::InvocationIdentity, StartupReply::Done) => self.at(
                StartupStage::OpenBinary,
            ),
            (StartupStage::OpenBinary, StartupReply::Done) => if self.mode == RunMode::Serve {
                self.at(StartupStage::InstallSignals)
            } else {
                self.at(StartupStage::OpenConfig)
            },
            (StartupStage::InstallSignals, StartupReply::Done) => self.at(StartupStage::OpenConfig),
            (StartupStage::OpenConfig, StartupReply::Config { disabled, embedding_mode }) =>
            Startup { disabled, embedding_mode, ..self }.at(StartupStage::LoadKey),
            (StartupStage::LoadKey, StartupReply::Key { credential }) => {
                let run = Startup { credential, ..self };
                if self.disabled && self.mode == RunMode::Serve && self.embedding_mode
                    == EmbeddingSecurityMode::Plaintext {
                    run.ended(StartupTrace::Disabled)
                } else if credential is Some {
                    run.at(StartupStage::ProbeCredential)
                } else {
                    run.at(StartupStage::ResolveRecognizer)
                }
            },
            (StartupStage::ProbeCredential, StartupReply::Probed { credential }) => if credential
                == self.credential {
                self.at(StartupStage::ResolveRecognizer)
            } else {
                self.failed(StartupFailure::CredentialChanged)
            },
            (StartupStage::ResolveRecognizer, StartupReply::Done) => self.at(StartupStage::Cleanup),
            (StartupStage::Cleanup, StartupReply::Done) => self.at(StartupStage::ConstructStorage),
            (StartupStage::ConstructStorage, StartupReply::Storage { ready }) => if self.mode
                == RunMode::StorageReadinessOnly {
                if ready {
                    self.at(StartupStage::ReportReadiness)
                } else {
                    self.failed(StartupFailure::StorageNotReady)
                }
            } else if self.disabled && self.mode == RunMode::Serve {
                self.ended(StartupTrace::Disabled)
            } else {
                self.at(StartupStage::ResolveModels)
            },
            (StartupStage::ReportReadiness, StartupReply::Done) => self.ended(
                StartupTrace::Nothing,
            ),
            (StartupStage::ResolveModels, StartupReply::Done) => self.at(
                StartupStage::InitializeInference,
            ),
            (StartupStage::InitializeInference, StartupReply::Done) => if self.mode
                == RunMode::PrewarmOnly {
                self.at(StartupStage::WriteMarker)
            } else {
                self.at(StartupStage::CreatePrompts)
            },
            (StartupStage::WriteMarker, _) => self.at(StartupStage::ReportPrewarm),
            (StartupStage::ReportPrewarm, StartupReply::Done) => self.ended(
                StartupTrace::PrewarmReady,
            ),
            (StartupStage::CreatePrompts, StartupReply::Done) => self.at(
                StartupStage::ProfileCamera,
            ),
            (StartupStage::ProfileCamera, StartupReply::Done) => self.at(
                StartupStage::ServiceCleanup,
            ),
            (StartupStage::ServiceCleanup, StartupReply::Done) => self.at(
                StartupStage::OpenListener,
            ),
            (StartupStage::OpenListener, StartupReply::Done) => self.at(StartupStage::RunService),
            (StartupStage::RunService, StartupReply::Done) => self.ended(StartupTrace::Nothing),
            _ => self.failed(StartupFailure::Boundary(self.stage)),
        }
    }

    /// A run of the given mode, at its first boundary.
    pub fn begin(mode: RunMode) -> (run: Startup)
        ensures
            run == initial_run(mode),
            run.wf(),
    {
        let stage = if mode == RunMode::PrewarmOnly || mode == RunMode::StorageReadinessOnly {
            StartupStage::SetPrivateUmask
        } else {
            StartupStage::InitializeProcess
        };
        Startup {
            mode,
            stage,
            perf_trace: false,
            disabled: false,
            embedding_mode: EmbeddingSecurityMode::Plaintext,
            credential: None,
        }
    }

    fn go(self, stage: StartupStage) -> (step: StartupStep)
        ensures
            step == self.at(stage),
    {
        StartupStep::Perform(Startup { stage, ..self })
    }

    fn end(self, trace: StartupTrace) -> (step: StartupStep)
        ensures
            step == self.ended(trace),
    {
        let kept = if self.perf_trace {
            trace
        } else {
            StartupTrace::Nothing
        };
        StartupStep::Finished(StartupEnd { failure: None, trace: kept })
    }

    fn fail(self, failure: StartupFailure) -> (step: StartupStep)
        ensures
            step == self.failed(failure),
    {
        let trace = match failure {
            StartupFailure::Boundary(StartupStage::OpenConfig) => StartupTrace::ConfigError,
            StartupFailure::Boundary(StartupStage::InitializeInference) =>
            StartupTrace::InferenceError,
            _ => StartupTrace::Nothing,
        };
        let kept = if self.perf_trace {
            trace
        } else {
            StartupTrace::Nothing
        };
        StartupStep::Finished(StartupEnd { failure: Some(failure), trace: kept })
    }

    /// Continues with what the boundary returned.
    pub fn after(self, reply: StartupReply) -> (step: StartupStep)
        requires
            self.wf(),
        ensures
            step == self.following(reply),
            step matches StartupStep::Perform(run) ==> run.wf(),
    {
        match (self.stage, reply) {
            (StartupStage::SetPrivateUmask, StartupReply::Done) => self.go(
                StartupStage::InitializeProcess,
            ),
            (StartupStage::InitializeProcess, StartupReply::Settings { perf_trace }) => {
                let run = Startup { perf_trace, ..self };
                if self.mode == RunMode::ValidateFfmpegAccount {
                    run.go(StartupStage::ValidateAccount)
                } else {
                    run.go(StartupStage::InvocationIdentity)
                }
            },
            (StartupStage::ValidateAccount, StartupReply::Done) => self.go(
                StartupStage::ReportAccount,
            ),
            (StartupStage::ReportAccount, StartupReply::Done) => self.end(StartupTrace::Nothing),
            (StartupStage::InvocationIdentity, StartupReply::Done) => self.go(
                StartupStage::OpenBinary,
            ),
            (StartupStage::OpenBinary, StartupReply::Done) => {
                if self.mode == RunMode::Serve {
                    self.go(StartupStage::InstallSignals)
                } else {
                    self.go(StartupStage::OpenConfig)
                }
            },
            (StartupStage::InstallSignals, StartupReply::Done) => self.go(StartupStage::OpenConfig),
            (StartupStage::OpenConfig, StartupReply::Config { disabled, embedding_mode }) => {
                let run = Startup { disabled, embedding_mode, ..self };
                run.go(StartupStage::LoadKey)
            },
            (StartupStage::LoadKey, StartupReply::Key { credential }) => {
                let run = Startup { credential, ..self };
                if self.disabled && self.mode == RunMode::Serve && self.embedding_mode
                    == EmbeddingSecurityMode::Plaintext {
                    run.end(StartupTrace::Disabled)
                } else if credential.is_some() {
                    run.go(StartupStage::ProbeCredential)
                } else {
                    run.go(StartupStage::ResolveRecognizer)
                }
            },
            (StartupStage::ProbeCredential, StartupReply::Probed { credential }) => {
                if credential == self.credential {
                    self.go(StartupStage::ResolveRecognizer)
                } else {
                    self.fail(StartupFailure::CredentialChanged)
                }
            },
            (StartupStage::ResolveRecognizer, StartupReply::Done) => self.go(StartupStage::Cleanup),
            (StartupStage::Cleanup, StartupReply::Done) => self.go(StartupStage::ConstructStorage),
            (StartupStage::ConstructStorage, StartupReply::Storage { ready }) => {
                if self.mode == RunMode::StorageReadinessOnly {
                    if ready {
                        self.go(StartupStage::ReportReadiness)
                    } else {
                        self.fail(StartupFailure::StorageNotReady)
                    }
                } else if self.disabled && self.mode == RunMode::Serve {
                    self.end(StartupTrace::Disabled)
                } else {
                    self.go(StartupStage::ResolveModels)
                }
            },
            (StartupStage::ReportReadiness, StartupReply::Done) => self.end(StartupTrace::Nothing),
            (StartupStage::ResolveModels, StartupReply::Done) => self.go(
                StartupStage::InitializeInference,
            ),
            (StartupStage::InitializeInference, StartupReply::Done) => {
                if self.mode == RunMode::PrewarmOnly {
                    self.go(StartupStage::WriteMarker)
                } else {
                    self.go(StartupStage::CreatePrompts)
                }
            },
            (StartupStage::WriteMarker, _) => self.go(StartupStage::ReportPrewarm),
            (StartupStage::ReportPrewarm, StartupReply::Done) => self.end(
                StartupTrace::PrewarmReady,
            ),
            (StartupStage::CreatePrompts, StartupReply::Done) => self.go(
                StartupStage::ProfileCamera,
            ),
            (StartupStage::ProfileCamera, StartupReply::Done) => self.go(
                StartupStage::ServiceCleanup,
            ),
            (StartupStage::ServiceCleanup, StartupReply::Done) => self.go(
                StartupStage::OpenListener,
            ),
            (StartupStage::OpenListener, StartupReply::Done) => self.go(StartupStage::RunService),
            (StartupStage::RunService, StartupReply::Done) => self.end(StartupTrace::Nothing),
            _ => self.fail(StartupFailure::Boundary(self.stage)),
        }
    }
}

/// `runs` are the states of one run, from its start, driven by `replies`.
pub open spec fn is_run(mode: RunMode, runs: Seq<Startup>, replies: Seq<StartupReply>) -> bool {
    &&& runs.len() == replies.len() + 1
    &&& runs[0] == initial_run(mode)
    &&& forall|i: int|
        0 <= i < replies.len() ==> #[trigger] runs[i].following(replies[i]) == StartupStep::Perform(
            runs[i + 1],
        )
}

/// Every state of a run keeps the run's mode and stands where that mode allows,
/// and the boundaries come in a fixed order, none of them twice.
pub proof fn runs_keep_mode_and_order(
    mode: RunMode,
    runs: Seq<Startup>,
    replies: Seq<StartupReply>,
    index: int,
)
    requires
        is_run(mode, runs, replies),
        0 <= index < runs.len(),
    ensures
        runs[index].mode == mode,
        runs[index].wf(),
        index > 0 ==> runs[index - 1].stage.rank() < runs[index].stage.rank(),
    decreases index,
{
    if index > 0 {
        runs_keep_mode_and_order(mode, runs, replies, index - 1);
        assert(runs[index - 1].following(replies[index - 1]) == StartupStep::Perform(runs[index]));
    }
}

/// A boundary of a run has been passed before another.
pub open spec fn passed(runs: Seq<Startup>, index: int, stage: StartupStage) -> bool {
    exists|i: int| 0 <= i < index && #[trigger] runs[i].stage == stage
}

proof fn key_is_loaded_before(
    mode: RunMode,
    runs: Seq<Startup>,
    replies: Seq<StartupReply>,
    index: int,
)
    requires
        is_run(mode, runs, replies),
        0 <= index < runs.len(),
        runs[index].stage.rank() > 8,
    ensures
        passed(runs, index, StartupStage::LoadKey),
        passed(runs, index, StartupStage::OpenConfig),
    decreases index,
{
    assert(runs[index - 1].following(replies[index - 1]) == StartupStep::Perform(runs[index]));
    if runs[index - 1].stage.rank() > 8 {
        key_is_loaded_before(mode, runs, replies, index - 1);
    } else {
        assert(runs[index - 1].stage == StartupStage::LoadKey);
        assert(runs[index - 2].following(replies[index - 2]) == StartupStep::Perform(
            runs[index - 1],
        ));
        assert(runs[index - 2].stage == StartupStage::OpenConfig);
    }
}

proof fn storage_is_built_before(
    mode: RunMode,
    runs: Seq<Startup>,
    replies: Seq<StartupReply>,
    index: int,
)
    requires
        is_run(mode, runs, replies),
        0 <= index < runs.len(),
        runs[index].stage.rank() > 12,
    ensures
        passed(runs, index, StartupStage::ConstructStorage),
        passed(runs, index, StartupStage::ResolveRecognizer),
    decreases index,
{
    assert(runs[index - 1].following(replies[index - 1]) == StartupStep::Perform(runs[index]));
    if runs[index - 1].stage.rank() > 12 {
        storage_is_built_before(mode, runs, replies, index - 1);
    } else {
        assert(runs[index - 1].stage == StartupStage::ConstructStorage);
        assert(runs[index - 2].following(replies[index - 2]) == StartupStep::Perform(
            runs[index - 1],
        ));
        assert(runs[index - 2].stage == StartupStage::Cleanup);
        assert(runs[index - 3].following(replies[index - 3]) == StartupStep::Perform(
            runs[index - 2],
        ));
        assert(runs[index - 3].stage == StartupStage::ResolveRecognizer);
    }
}

/// The key boundary lies right behind the configuration and before any model,
/// storage, camera or listener work, and storage stands before inference is
/// initialized or anything is served.
pub proof fn key_then_storage_then_inference(
    mode: RunMode,
    runs: Seq<Startup>,
    replies: Seq<StartupReply>,
    index: int,
)
    requires
        is_run(mode, runs, replies),
        0 <= index < runs.len(),
    ensures
        runs[index].stage.rank() >= StartupStage::ResolveRecognizer.rank() ==> passed(
            runs,
            index,
            StartupStage::LoadKey,
        ) && passed(runs, index, StartupStage::OpenConfig),
        runs[index].stage.rank() >= StartupStage::ResolveModels.rank() ==> passed(
            runs,
            index,
            StartupStage::ConstructStorage,
        ) && passed(runs, index, StartupStage::ResolveRecognizer),
{
    if runs[index].stage.rank() > 8 {
        key_is_loaded_before(mode, runs, replies, index);
    }
    if runs[index].stage.rank() > 12 {
        storage_is_built_before(mode, runs, replies, index);
    }
}

/// Validating the account opens no configuration; checking storage readiness
/// initializes no inference, camera or listener; a prewarm run serves nothing.
pub proof fn modes_stay_within_their_boundaries(
    mode: RunMode,
    runs: Seq<Startup>,
    replies: Seq<StartupReply>,
    index: int,
)
    requires
        is_run(mode, runs, replies),
        0 <= index < runs.len(),
    ensures
        mode == RunMode::ValidateFfmpegAccount ==> runs[index].stage.rank()
            < StartupStage::OpenConfig.rank(),
        mode == RunMode::StorageReadinessOnly ==> runs[index].stage.rank()
            < StartupStage::ResolveModels.rank(),
        mode == RunMode::PrewarmOnly ==> runs[index].stage.rank()
            < StartupStage::ProfileCamera.rank(),
        mode == RunMode::Serve && runs[index].disabled ==> runs[index].stage.rank()
            < StartupStage::InitializeInference.rank(),
{
    runs_keep_mode_and_order(mode, runs, replies, index);
}

/// The credential name that a running daemon reports: only the cached mode has one.
pub fn reported_credential_name(mode: EmbeddingSecurityMode) -> (name: Option<&'static str>)
    ensures
        name is Some <==> mode == EmbeddingSecurityMode::AeadCached,
        name matches Some(text) ==> text@ == "howy.storage.mode1.epoch1"@,
{
    if mode == EmbeddingSecurityMode::AeadCached {
        Some(crate::mode1_key::MODE1_CREDENTIAL_NAME)
    } else {
        None
    }
}


/// A mode has a stage in its course. Where a credential was loaded, it is probed.
pub open spec fn has_stage(mode: RunMode, credential: bool, stage: StartupStage) -> bool {
    match stage {
        StartupStage::SetPrivateUmask => mode == RunMode::PrewarmOnly || mode
            == RunMode::StorageReadinessOnly,
        StartupStage::InitializeProcess => true,
        StartupStage::ValidateAccount | StartupStage::ReportAccount => mode
            == RunMode::ValidateFfmpegAccount,
        StartupStage::InstallSignals => mode == RunMode::Serve,
        StartupStage::ProbeCredential => mode != RunMode::ValidateFfmpegAccount && credential,
        StartupStage::ReportReadiness => mode == RunMode::StorageReadinessOnly,
        StartupStage::ResolveModels | StartupStage::InitializeInference => mode == RunMode::Serve
            || mode == RunMode::PrewarmOnly,
        StartupStage::WriteMarker | StartupStage::ReportPrewarm => mode == RunMode::PrewarmOnly,
        StartupStage::CreatePrompts
        | StartupStage::ProfileCamera
        | StartupStage::ServiceCleanup
        | StartupStage::OpenListener
        | StartupStage::RunService => mode == RunMode::Serve,
        _ => mode != RunMode::ValidateFfmpegAccount,
    }
}

/// A start takes the stages of its mode in order and leaves none out: what comes next is
/// a stage of the mode, and no other stage of the mode lies between.
pub proof fn no_stage_is_left_out(run: Startup, reply: StartupReply, between: StartupStage)
    requires
        run.wf(),
    ensures
        run.following(reply) matches StartupStep::Perform(next) ==> {
            &&& next.mode == run.mode
            &&& has_stage(run.mode, next.credential is Some, next.stage)
            &&& run.stage.rank() < between.rank() < next.stage.rank() ==> !has_stage(
                run.mode,
                next.credential is Some,
                between,
            )
        },
        has_stage(run.mode, run.credential is Some, first_stage(run.mode)),
        between.rank() < first_stage(run.mode).rank() ==> !has_stage(run.mode, true, between),
{
}

/// A start ends well exactly behind the last stage of its mode, or where the service is
/// disabled, once its storage was built, or its key loaded where that is plain text.
pub proof fn starts_end_well_behind_their_last_stage(run: Startup, reply: StartupReply)
    requires
        run.wf(),
    ensures
        (run.following(reply) matches StartupStep::Finished(end) && end.failure is None) ==> {
            ||| run.mode == RunMode::ValidateFfmpegAccount && run.stage
                == StartupStage::ReportAccount && reply == StartupReply::Done
            ||| run.mode == RunMode::StorageReadinessOnly && run.stage
                == StartupStage::ReportReadiness && reply == StartupReply::Done
            ||| run.mode == RunMode::PrewarmOnly && run.stage == StartupStage::ReportPrewarm && reply
                == StartupReply::Done
            ||| run.mode == RunMode::Serve && run.stage == StartupStage::RunService && reply
                == StartupReply::Done
            ||| run.mode == RunMode::Serve && run.disabled && run.stage
                == StartupStage::ConstructStorage && reply is Storage
            ||| run.mode == RunMode::Serve && run.disabled && run.stage == StartupStage::LoadKey
                && run.embedding_mode == EmbeddingSecurityMode::Plaintext && reply is Key
        },
        run.mode == RunMode::Serve && run.disabled && run.stage == StartupStage::ConstructStorage
            && reply is Storage ==> (run.following(reply) matches StartupStep::Finished(end)
            && end.failure is None && end.trace == (if run.perf_trace {
            StartupTrace::Disabled
        } else {
            StartupTrace::Nothing
        })),
        run.mode == RunMode::Serve && run.disabled && run.stage == StartupStage::LoadKey
            && run.embedding_mode == EmbeddingSecurityMode::Plaintext && reply is Key ==> (
        run.following(reply) matches StartupStep::Finished(end) && end.failure is None && end.trace
            == (if run.perf_trace {
            StartupTrace::Disabled
        } else {
            StartupTrace::Nothing
        })),
{
}

/// What fails ends the start and is named, but for the marker, which may fail. A
/// credential that is another than the loaded one, and storage that is not ready where
/// that is asked for, end it too.
pub proof fn failures_end_the_start(run: Startup, found: Option<CredentialSourceIdentity>)
    requires
        run.wf(),
    ensures
        run.stage != StartupStage::WriteMarker ==> (run.following(
            StartupReply::Failed,
        ) matches StartupStep::Finished(end) && end.failure == Some(
            StartupFailure::Boundary(run.stage),
        ) && end.trace == (if run.perf_trace && run.stage == StartupStage::OpenConfig {
            StartupTrace::ConfigError
        } else if run.perf_trace && run.stage == StartupStage::InitializeInference {
            StartupTrace::InferenceError
        } else {
            StartupTrace::Nothing
        })),
        run.stage == StartupStage::WriteMarker ==> (run.following(
            StartupReply::Failed,
        ) matches StartupStep::Perform(next) && next.stage == StartupStage::ReportPrewarm),
        run.stage == StartupStage::ProbeCredential ==> (run.following(
            StartupReply::Probed { credential: found },
        ) is Perform <==> found == run.credential),
        run.stage == StartupStage::ProbeCredential && found != run.credential ==> (run.following(
            StartupReply::Probed { credential: found },
        ) matches StartupStep::Finished(end) && end.failure == Some(
            StartupFailure::CredentialChanged,
        )),
        run.stage == StartupStage::ConstructStorage && run.mode == RunMode::StorageReadinessOnly
            ==> (run.following(
            StartupReply::Storage { ready: false },
        ) matches StartupStep::Finished(end) && end.failure == Some(
            StartupFailure::StorageNotReady,
        )),
        run.stage == StartupStage::ReportPrewarm ==> (run.following(
            StartupReply::Done,
        ) matches StartupStep::Finished(end) && end.failure is None && end.trace == (
        if run.perf_trace {
            StartupTrace::PrewarmReady
        } else {
            StartupTrace::Nothing
        })),
{
}

/// What the stages tell is kept: whether times are traced, whether the service is
/// disabled and how embeddings are stored, and which credential was loaded. Nothing else
/// changes any of it.
pub proof fn starts_keep_what_they_were_told(run: Startup, reply: StartupReply)
    requires
        run.wf(),
    ensures
        run.following(reply) matches StartupStep::Perform(next) ==> {
            &&& next.perf_trace == (match reply {
                StartupReply::Settings { perf_trace } if run.stage
                    == StartupStage::InitializeProcess => perf_trace,
                _ => run.perf_trace,
            })
            &&& next.disabled == (match reply {
                StartupReply::Config { disabled, .. } if run.stage == StartupStage::OpenConfig =>
                disabled,
                _ => run.disabled,
            })
            &&& next.embedding_mode == (match reply {
                StartupReply::Config { embedding_mode, .. } if run.stage
                    == StartupStage::OpenConfig => embedding_mode,
                _ => run.embedding_mode,
            })
            &&& next.credential == (match reply {
                StartupReply::Key { credential } if run.stage == StartupStage::LoadKey => credential,
                _ => run.credential,
            })
        },
{
}

/// White space around a provider's name and the case of its letters do not matter.
pub proof fn providers_are_named_in_any_case(requested: Seq<char>, registered: Seq<char>, retry: bool)
    ensures
        fell_back_to_cpu(requested, registered) <==> lowercase(trim(registered)) == "cpu"@
            && lowercase(trim(requested)) != "cpu"@,
        marker_is_due(requested, registered, retry) ==> !retry && lowercase(trim(registered))
            == "migraphx"@,
        !retry && lowercase(trim(registered)) == "migraphx"@ && (lowercase(trim(requested))
            == "migraphx"@ || lowercase(trim(requested)) == "auto"@) ==> marker_is_due(
            requested,
            registered,
            retry,
        ),
        marker_is_due(requested, registered, retry) ==> lowercase(trim(requested)) == "migraphx"@
            || lowercase(trim(requested)) == "auto"@,
        marker_is_due(requested, registered, retry) ==> !fell_back_to_cpu(requested, registered),
{
    reveal_strlit("cpu");
    reveal_strlit("migraphx");
    assert("cpu"@.len() == 3 && "migraphx"@.len() == 8);
}


/// The line about warming up names both providers, and says that the processor is fallen
/// back to where it was retried on or where it is registered without being asked for.
pub proof fn prewarm_lines_tell_the_outcome(requested: Seq<char>, registered: Seq<char>)
    ensures
        prewarm_line(requested, registered, true) == "PREWARM_RESULT requested_provider="@
            + requested + " registered_preferred_provider="@ + registered
            + " explicit_cpu_retry="@ + "true"@ + " placement_verified=false fallback_to_cpu="@
            + "true"@,
        prewarm_line(requested, registered, false) == "PREWARM_RESULT requested_provider="@
            + requested + " registered_preferred_provider="@ + registered
            + " explicit_cpu_retry="@ + "false"@ + " placement_verified=false fallback_to_cpu="@ + (
        if lowercase(trim(registered)) == "cpu"@ && lowercase(trim(requested)) != "cpu"@ {
            "true"@
        } else {
            "false"@
        }),
        marker_text(requested, registered, true).len() + 1 == marker_text(
            requested,
            registered,
            false,
        ).len(),
{
    reveal_strlit("true");
    reveal_strlit("false");
    assert("true"@.len() == 4 && "false"@.len() == 5);
}

} // verus!
