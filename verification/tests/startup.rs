//! The command line, the order of a run's boundaries, and the verifier's output.
use howy_daemon::diagnostics::{
    bounded_error_message, react_to_panic, report_strong_failure, verifier_panic_line,
    verifier_state_line, PanicMode, PanicReaction, StrongReadinessFailure,
    VerifierPanicModeGuard, DAEMON_ERROR_PREFIX, MAX_DAEMON_ERROR_BYTES,
};
use howy_daemon::mode1_key::{
    CredentialSourceIdentity, DescriptorIdentity, EmbeddingSecurityMode, Mode1KeyContext,
    StartupKeyContext,
};
use howy_daemon::options::{
    parse_run_options_from, OptionsError, RunMode, RunOptions, RunRequest,
};
use howy_daemon::readiness::{
    after_readiness_stage, begin_strong_readiness, contained_exit_status, readiness_phase,
    serialize_strong_readiness_result, AtomicOutput, OutputFailure, OutputReply, OutputStage,
    OutputStep, ReadinessStage, ReadinessStep,
};
use howy_daemon::startup::{
    after_cpu_retry, after_first_attempt, initialize_runtime_ordered, normalize_provider,
    prewarm_marker_contents, prewarm_result_line, registered_preference_is_cpu,
    reported_credential_name, select_storage_backend, should_write_accelerator_prewarm_marker,
    storage_readiness_line, AttemptStep, OrderedStartupError, ProviderAttempts, Startup,
    StartupEnd, StartupFailure, StartupReply, StartupStage, StartupStep, StartupTrace,
    StorageKind, StorageStartupError,
};
use std::cell::RefCell;
use std::sync::{Arc, Mutex};

const MAX_PATH: usize = 4096;

struct StartupKeyDropProbe(Arc<Mutex<Vec<&'static str>>>);

impl Drop for StartupKeyDropProbe {
    fn drop(&mut self) {
        self.0.lock().unwrap().push("wipe");
    }
}

fn parse(arguments: &[&str]) -> Result<RunOptions, OptionsError> {
    let words: Vec<Vec<u8>> = arguments
        .iter()
        .map(|word| word.as_bytes().to_vec())
        .collect();
    match parse_run_options_from(&words, MAX_PATH)? {
        RunRequest::Run(options) => Ok(options),
        RunRequest::Help => panic!("help was not asked for"),
    }
}

#[test]
fn readiness_arguments_are_strict_and_candidate_only() {
    let parsed = parse(&[
        "howyd",
        "--storage-readiness-only",
        "--verify-records",
        "--config",
        "/etc/howy/candidate.toml",
    ])
    .unwrap();
    assert_eq!(parsed.mode, RunMode::StorageReadinessOnly);
    assert!(parsed.verify_records);
    assert_eq!(
        parsed.config_path.as_deref(),
        Some(&b"/etc/howy/candidate.toml"[..])
    );

    for rejected in [
        vec!["howyd", "--verify-records"],
        vec!["howyd", "--verify-records", "--help"],
        vec!["howyd", "--config", "/etc/howy/candidate.toml"],
        vec![
            "howyd",
            "--verify-records",
            "--config",
            "/etc/howy/candidate.toml",
        ],
        vec!["howyd", "--storage-readiness-only", "--verify-records"],
        vec![
            "howyd",
            "--storage-readiness-only",
            "--config",
            "/etc/howy/candidate.toml",
        ],
        vec!["howyd", "--storage-readiness-only", "--config"],
        vec![
            "howyd",
            "--storage-readiness-only",
            "--config",
            "relative.toml",
        ],
        vec![
            "howyd",
            "--storage-readiness-only",
            "--config",
            "/etc/../tmp/x",
        ],
        vec![
            "howyd",
            "--storage-readiness-only",
            "--config",
            "/etc//howy/x",
        ],
        vec![
            "howyd",
            "--storage-readiness-only",
            "--verify-records",
            "--verify-records",
            "--config",
            "/etc/howy/candidate.toml",
        ],
    ] {
        assert!(parse(&rejected).is_err(), "accepted {rejected:?}");
    }
}

#[test]
fn header_only_readiness_remains_available_without_strong_flag() {
    let parsed = parse(&["howyd", "--storage-readiness-only"]).unwrap();
    assert_eq!(parsed.mode, RunMode::StorageReadinessOnly);
    assert!(!parsed.verify_records);
    assert!(parsed.config_path.is_none());
}

#[test]
fn every_command_line_error_can_come() {
    for (words, error) in [
        (
            vec![
                "howyd",
                "--storage-readiness-only",
                "--verify-records",
                "--verify-records",
            ],
            OptionsError::DuplicateVerifyRecords,
        ),
        (
            vec!["howyd", "--storage-readiness-only", "--config"],
            OptionsError::MissingCandidate,
        ),
        (
            vec!["howyd", "--storage-readiness-only", "--config", "etc"],
            OptionsError::InvalidCandidate,
        ),
        (
            vec!["howyd", "--config", "/a", "--config", "/b"],
            OptionsError::DuplicateConfig,
        ),
        (
            vec!["howyd", "--prewarm-only", "--storage-readiness-only"],
            OptionsError::MultipleModes,
        ),
        (
            vec!["howyd", "--help", "--help"],
            OptionsError::DuplicateHelp,
        ),
        (vec!["howyd", "--what"], OptionsError::UnknownArgument),
        (
            vec!["howyd", "--help", "--prewarm-only"],
            OptionsError::HelpWithRunArgument,
        ),
        (
            vec!["howyd", "--storage-readiness-only", "--verify-records"],
            OptionsError::UnpairedReadinessFlags,
        ),
        (
            vec!["howyd", "--verify-records", "--config", "/a"],
            OptionsError::FlagsWithoutReadiness,
        ),
    ] {
        assert_eq!(parse(&words), Err(error), "{words:?}");
        assert!(!error.message().is_empty());
    }
    let bad = vec![b"howyd".to_vec(), vec![0xff]];
    assert_eq!(
        parse_run_options_from(&bad, MAX_PATH),
        Err(OptionsError::NonUtf8Argument)
    );
    let help = vec![b"howyd".to_vec(), b"--help".to_vec()];
    assert_eq!(parse_run_options_from(&help, MAX_PATH), Ok(RunRequest::Help));
    assert_eq!(parse(&["howyd"]).unwrap().mode, RunMode::Serve);
}

#[test]
fn strong_readiness_emits_one_json_object_only_after_complete_validation() {
    let stdout = serialize_strong_readiness_result(b"{\"ready\":true}".to_vec()).unwrap();
    assert_eq!(stdout.iter().filter(|byte| **byte == b'\n').count(), 1);
    assert_eq!(stdout.strip_suffix(b"\n").unwrap(), b"{\"ready\":true}");
    assert!(serialize_strong_readiness_result(vec![b'x'; 4095]).is_some());
    assert!(serialize_strong_readiness_result(vec![b'x'; 4096]).is_none());
}

#[test]
fn daemon_error_rendering_is_single_line_and_bounded() {
    let error = format!("{}\nsecond line", "x".repeat(8_192));
    let rendered = bounded_error_message(&error);
    assert!(DAEMON_ERROR_PREFIX.len() + rendered.len() + 1 <= MAX_DAEMON_ERROR_BYTES);
    assert!(!rendered.contains(['\r', '\n']));
    assert!(rendered.ends_with("..."));
    for failure in [
        StrongReadinessFailure::Deadline,
        StrongReadinessFailure::Identity,
        StrongReadinessFailure::Config,
        StrongReadinessFailure::Credential,
        StrongReadinessFailure::Verification,
        StrongReadinessFailure::Output,
    ] {
        let message = failure.stable_message();
        assert!(!message.contains(['\r', '\n']));
        for forbidden in ["/etc/", ".toml", ".onnx", "alice", ".hye", "tag", "key="] {
            assert!(!message.contains(forbidden));
        }
        let line = failure.stable_line();
        assert_eq!(line, format!("howyd: {message}\n").as_bytes());
    }
}

#[test]
fn short_errors_keep_their_text() {
    assert_eq!(bounded_error_message("a\r\nb"), "a  b");
    assert_eq!(bounded_error_message("plain"), "plain");
    let wide = "\u{e9}".repeat(3000);
    let bounded = bounded_error_message(&wide);
    assert!(bounded.len() <= 4088);
    assert!(bounded.ends_with("..."));
}

/// A pipe that records what is done to it.
struct FakePipe {
    pipe: bool,
    bound: usize,
    flags: i32,
    write: Result<(), ()>,
    writes: usize,
    bytes: Vec<u8>,
}

impl FakePipe {
    fn new(write: Result<(), ()>) -> Self {
        Self {
            pipe: true,
            bound: 4_096,
            flags: 0,
            write,
            writes: 0,
            bytes: Vec::new(),
        }
    }
}

fn emit(pipe: &mut FakePipe, payload: &[u8], cancelled: bool) -> Result<(), OutputFailure> {
    let mut step = AtomicOutput::begin(payload.len(), libc::O_NONBLOCK, cancelled);
    loop {
        let output = match step {
            OutputStep::Finished(result) => return result,
            OutputStep::Perform(output) => output,
        };
        let reply = match output.stage {
            OutputStage::CheckDescriptor => OutputReply::IsPipe(pipe.pipe),
            OutputStage::QueryBound => OutputReply::Bound(pipe.bound),
            OutputStage::ReadFlags => OutputReply::Flags(pipe.flags),
            OutputStage::SetFlags { flags } => {
                pipe.flags = flags;
                OutputReply::Done
            }
            OutputStage::Write => {
                pipe.writes += 1;
                match pipe.write {
                    Ok(()) => {
                        pipe.bytes.extend_from_slice(payload);
                        OutputReply::Written(payload.len())
                    }
                    Err(()) => OutputReply::Failed,
                }
            }
        };
        step = output.after(reply, cancelled);
    }
}

#[test]
fn atomic_verifier_output_is_one_full_pipe_write_or_zero_bytes() {
    let payload = b"{\"success\":true}\n";
    let mut full = FakePipe::new(Ok(()));
    emit(&mut full, payload, false).unwrap();
    assert_eq!(full.writes, 1);
    assert_eq!(full.bytes, payload);
    assert_ne!(full.flags & libc::O_NONBLOCK, 0);

    let mut failed = FakePipe::new(Err(()));
    assert!(emit(&mut failed, payload, false).is_err());
    assert_eq!(failed.writes, 1);
    assert!(failed.bytes.is_empty());

    let mut regular_file = FakePipe::new(Ok(()));
    regular_file.pipe = false;
    assert!(emit(&mut regular_file, payload, false).is_err());
    assert_eq!(regular_file.writes, 0);
    assert!(regular_file.bytes.is_empty());

    let mut deadline = FakePipe::new(Ok(()));
    assert!(emit(&mut deadline, payload, true).is_err());
    assert_eq!(deadline.writes, 0);
    assert!(deadline.bytes.is_empty());
}

#[test]
fn every_output_failure_can_come() {
    let mut pipe = FakePipe::new(Ok(()));
    assert_eq!(emit(&mut pipe, &[], false), Err(OutputFailure::OutsideBound));
    assert_eq!(
        emit(&mut pipe, &[0; 4097], false),
        Err(OutputFailure::OutsideBound)
    );
    assert_eq!(
        emit(&mut pipe, b"x", true),
        Err(OutputFailure::DeadlineExpired)
    );
    pipe.pipe = false;
    assert_eq!(
        emit(&mut pipe, b"x", false),
        Err(OutputFailure::DescriptorRejected)
    );
    pipe.pipe = true;
    pipe.bound = 1;
    assert_eq!(
        emit(&mut pipe, b"xy", false),
        Err(OutputFailure::ExceedsDescriptorBound)
    );
    let OutputStep::Perform(output) = AtomicOutput::begin(4, libc::O_NONBLOCK, false) else {
        panic!("an output within the bound begins");
    };
    assert_eq!(
        output.after(OutputReply::Failed, false),
        OutputStep::Finished(Err(OutputFailure::DescriptorError))
    );
    let writing = AtomicOutput {
        stage: OutputStage::Write,
        bound: Some(4096),
        ..output
    };
    assert_eq!(
        writing.after(OutputReply::Written(3), false),
        OutputStep::Finished(Err(OutputFailure::Incomplete))
    );
    assert!(!OutputFailure::Incomplete.message().is_empty());
}

#[test]
fn readiness_runs_its_phases_in_order() {
    let options = RunOptions {
        mode: RunMode::StorageReadinessOnly,
        config_path: Some(b"/etc/howy/candidate.toml".to_vec()),
        verify_records: true,
    };
    let mut stages = Vec::new();
    let mut step = begin_strong_readiness(&options, false);
    while let ReadinessStep::Perform(stage) = step {
        stages.push(stage);
        step = after_readiness_stage(stage, true, false);
    }
    assert_eq!(step, ReadinessStep::Finished(Ok(())));
    assert_eq!(
        stages,
        [
            ReadinessStage::InvocationIdentity,
            ReadinessStage::OpenBinary,
            ReadinessStage::OpenConfig,
            ReadinessStage::LoadKey,
            ReadinessStage::Verify,
            ReadinessStage::FinalIdentity,
            ReadinessStage::Compose,
            ReadinessStage::Serialize,
            ReadinessStage::Output,
        ]
    );
    assert_eq!(
        after_readiness_stage(ReadinessStage::LoadKey, false, false),
        ReadinessStep::Finished(Err(StrongReadinessFailure::Credential))
    );
    assert_eq!(
        after_readiness_stage(ReadinessStage::Verify, true, true),
        ReadinessStep::Finished(Err(StrongReadinessFailure::Deadline))
    );
    assert_eq!(
        readiness_phase::<u8, ()>(Ok(7), false, StrongReadinessFailure::Config),
        Ok(7)
    );
    assert_eq!(
        readiness_phase::<u8, ()>(Err(()), false, StrongReadinessFailure::Config),
        Err(StrongReadinessFailure::Config)
    );
    assert_eq!(contained_exit_status(Some(Ok(()))), 0);
    assert_eq!(
        contained_exit_status(Some(Err(StrongReadinessFailure::Output))),
        1
    );
    assert_eq!(contained_exit_status(None), 1);
}

#[test]
fn a_verifier_reports_at_most_once() {
    let mut mode = PanicMode::Inactive;
    assert_eq!(react_to_panic(&mut mode), PanicReaction::Delegate);
    let guard = VerifierPanicModeGuard::arm(&mut mode).unwrap();
    assert!(VerifierPanicModeGuard::arm(&mut mode).is_none());
    assert_eq!(react_to_panic(&mut mode), PanicReaction::Report);
    assert_eq!(react_to_panic(&mut mode), PanicReaction::Silent);
    assert_eq!(
        report_strong_failure(&mut mode, StrongReadinessFailure::Output),
        None
    );
    guard.release(&mut mode);
    assert_eq!(mode, PanicMode::Inactive);
    assert!(verifier_panic_line().ends_with(b"\n"));
    assert!(verifier_state_line().starts_with(b"howyd: "));

    let mut armed = PanicMode::Armed;
    assert_eq!(
        report_strong_failure(&mut armed, StrongReadinessFailure::Verification),
        Some(&b"howyd: strong-readiness/verification: namespace verification failed\n"[..])
    );
    assert_eq!(armed, PanicMode::Reported);
}

#[test]
fn production_orchestrator_constructs_storage_before_inference() {
    let events = Arc::new(Mutex::new(vec!["config", "key"]));
    let storage_events = Arc::clone(&events);
    let inference_events = Arc::clone(&events);
    initialize_runtime_ordered(
        (),
        move |()| {
            storage_events.lock().unwrap().push("storage");
            Ok::<(), ()>(())
        },
        move || {
            inference_events.lock().unwrap().push("inference");
            Ok(())
        },
    )
    .map_err(|_| ())
    .unwrap();
    assert_eq!(
        events.lock().unwrap().as_slice(),
        ["config", "key", "storage", "inference"]
    );
}

#[test]
fn storage_failure_consumes_and_wipes_key_before_skipping_inference() {
    let events = Arc::new(Mutex::new(vec!["key"]));
    let storage_events = Arc::clone(&events);
    let inference_events = Arc::clone(&events);
    let result = initialize_runtime_ordered(
        StartupKeyDropProbe(Arc::clone(&events)),
        move |key| -> Result<(), &'static str> {
            storage_events.lock().unwrap().push("storage");
            drop(key);
            Err("injected backend failure")
        },
        move || -> Result<(), &'static str> {
            inference_events.lock().unwrap().push("inference");
            Ok(())
        },
    );
    assert!(result.is_err());
    assert_eq!(
        events.lock().unwrap().as_slice(),
        ["key", "storage", "wipe"]
    );
    let failed = initialize_runtime_ordered((), |()| Ok(1), || Err::<u8, _>("no engine"));
    assert_eq!(failed, Err(OrderedStartupError::Inference("no engine")));
}

#[test]
fn registered_cpu_preference_is_labeled_without_claiming_placement() {
    assert!(registered_preference_is_cpu("migraphx", "cpu"));
    assert!(registered_preference_is_cpu("auto", "cpu"));
    assert!(!registered_preference_is_cpu("cpu", "cpu"));
    assert!(!registered_preference_is_cpu("auto", "cuda"));
}

#[test]
fn prewarm_marker_requires_migraphx_preference_without_cpu_retry() {
    assert!(should_write_accelerator_prewarm_marker(
        "migraphx", "migraphx", false
    ));
    assert!(should_write_accelerator_prewarm_marker(
        "auto", "migraphx", false
    ));
    assert!(!should_write_accelerator_prewarm_marker(
        "auto", "cuda", false
    ));
    assert!(!should_write_accelerator_prewarm_marker(
        "auto", "cpu", false
    ));
    assert!(!should_write_accelerator_prewarm_marker(
        "auto", "mixed", false
    ));
    assert!(!should_write_accelerator_prewarm_marker(
        "migraphx", "migraphx", true
    ));
    assert!(!should_write_accelerator_prewarm_marker(
        "cuda", "migraphx", false
    ));
}

#[test]
fn prewarm_marker_contains_no_model_paths() {
    let stored = prewarm_marker_contents("auto", "migraphx", false);
    assert!(stored.starts_with(
        "howy accelerator registration+self-test completed\nrequested_provider=auto\n"
    ));
    assert!(!stored.contains("detector_model"));
    assert!(!stored.contains("recognizer_model"));
    assert!(!stored.contains(".onnx"));
    assert_eq!(
        prewarm_result_line("auto", "cpu", true),
        "PREWARM_RESULT requested_provider=auto registered_preferred_provider=cpu \
         explicit_cpu_retry=true placement_verified=false fallback_to_cpu=true"
    );
    assert_eq!(
        storage_readiness_line(EmbeddingSecurityMode::AeadCached),
        "STORAGE_READINESS_RESULT mode=1 ready=true decrypted_records=0 cached_records=0 \
         key_record_compatibility=unproven"
    );
    assert_eq!(normalize_provider("  MIGraphX "), "migraphx");
}

#[test]
fn unimplemented_storage_modes_fail_without_touching_a_model_or_storage_path() {
    for mode in [
        EmbeddingSecurityMode::AeadEphemeral,
        EmbeddingSecurityMode::ReservedFuture,
    ] {
        let error = select_storage_backend(mode, &StartupKeyContext::Mode0, false).unwrap_err();
        assert!(error.message().contains("mode"));
    }
}

fn key_context() -> StartupKeyContext {
    StartupKeyContext::Mode1(Mode1KeyContext {
        identity: [7; 32],
        credential_source: source(1),
        configured_source: "howy-fixture".to_string(),
    })
}

fn source(inode: u64) -> CredentialSourceIdentity {
    CredentialSourceIdentity {
        directory: DescriptorIdentity { device: 1, inode: 9 },
        credential: DescriptorIdentity { device: 1, inode },
        source_companion: None,
    }
}

#[test]
fn storage_matches_the_mode_and_its_key() {
    let plaintext = EmbeddingSecurityMode::Plaintext;
    let cached = EmbeddingSecurityMode::AeadCached;
    assert_eq!(
        select_storage_backend(plaintext, &StartupKeyContext::Mode0, true),
        Ok(StorageKind::Plaintext)
    );
    assert_eq!(
        select_storage_backend(cached, &key_context(), true),
        Ok(StorageKind::CachedAead)
    );
    assert_eq!(
        select_storage_backend(plaintext, &StartupKeyContext::Mode0, false),
        Err(StorageStartupError::PlaintextNeedsRecognizer)
    );
    assert_eq!(
        select_storage_backend(cached, &key_context(), false),
        Err(StorageStartupError::Mode1NeedsRecognizer)
    );
    assert_eq!(
        select_storage_backend(cached, &StartupKeyContext::Mode0, true),
        Err(StorageStartupError::KeyContextMismatch)
    );
    assert_eq!(
        select_storage_backend(plaintext, &key_context(), true),
        Err(StorageStartupError::KeyContextMismatch)
    );
}

#[test]
fn accelerated_engines_are_retried_once_on_the_cpu() {
    assert_eq!(
        after_first_attempt("migraphx", true),
        AttemptStep::Ready(ProviderAttempts {
            explicit_cpu_retry: false,
            attempts: 1,
            discarded: 0,
        })
    );
    assert_eq!(after_first_attempt("auto", false), AttemptStep::RetryOnCpu);
    assert_eq!(after_first_attempt("cpu", false), AttemptStep::Failed);
    assert_eq!(
        after_cpu_retry(true),
        AttemptStep::Ready(ProviderAttempts {
            explicit_cpu_retry: true,
            attempts: 2,
            discarded: 1,
        })
    );
    assert_eq!(after_cpu_retry(false), AttemptStep::Failed);
}

/// Runs a startup whose boundaries all succeed, and lists them.
fn boundaries(mode: RunMode, disabled: bool) -> (Vec<StartupStage>, StartupEnd) {
    let seen = RefCell::new(Vec::new());
    let mut run = Startup::begin(mode);
    loop {
        seen.borrow_mut().push(run.stage);
        let reply = match run.stage {
            StartupStage::InitializeProcess => StartupReply::Settings { perf_trace: true },
            StartupStage::OpenConfig => StartupReply::Config {
                disabled,
                embedding_mode: EmbeddingSecurityMode::AeadCached,
            },
            StartupStage::LoadKey => StartupReply::Key {
                credential: Some(source(1)),
            },
            StartupStage::ProbeCredential => StartupReply::Probed {
                credential: Some(source(1)),
            },
            StartupStage::ConstructStorage => StartupReply::Storage { ready: true },
            _ => StartupReply::Done,
        };
        match run.after(reply) {
            StartupStep::Perform(next) => run = next,
            StartupStep::Finished(end) => return (seen.into_inner(), end),
        }
    }
}

#[test]
fn runs_pass_their_boundaries_in_order() {
    let (stages, end) = boundaries(RunMode::Serve, false);
    assert_eq!(
        stages,
        [
            StartupStage::InitializeProcess,
            StartupStage::InvocationIdentity,
            StartupStage::OpenBinary,
            StartupStage::InstallSignals,
            StartupStage::OpenConfig,
            StartupStage::LoadKey,
            StartupStage::ProbeCredential,
            StartupStage::ResolveRecognizer,
            StartupStage::Cleanup,
            StartupStage::ConstructStorage,
            StartupStage::ResolveModels,
            StartupStage::InitializeInference,
            StartupStage::CreatePrompts,
            StartupStage::ProfileCamera,
            StartupStage::ServiceCleanup,
            StartupStage::OpenListener,
            StartupStage::RunService,
        ]
    );
    assert_eq!(end.failure, None);
    assert_eq!(end.trace, StartupTrace::Nothing);

    let (stages, end) = boundaries(RunMode::PrewarmOnly, false);
    assert_eq!(stages.first(), Some(&StartupStage::SetPrivateUmask));
    assert_eq!(stages.last(), Some(&StartupStage::ReportPrewarm));
    assert_eq!(end.trace, StartupTrace::PrewarmReady);

    let (stages, _) = boundaries(RunMode::StorageReadinessOnly, false);
    assert_eq!(stages.last(), Some(&StartupStage::ReportReadiness));
    assert!(!stages.contains(&StartupStage::InitializeInference));

    let (stages, _) = boundaries(RunMode::ValidateFfmpegAccount, false);
    assert_eq!(
        stages,
        [
            StartupStage::InitializeProcess,
            StartupStage::ValidateAccount,
            StartupStage::ReportAccount,
        ]
    );

    let (stages, end) = boundaries(RunMode::Serve, true);
    assert_eq!(stages.last(), Some(&StartupStage::ConstructStorage));
    assert_eq!(end.trace, StartupTrace::Disabled);
}

#[test]
fn failed_boundaries_end_the_run() {
    let run = Startup {
        perf_trace: true,
        stage: StartupStage::OpenConfig,
        ..Startup::begin(RunMode::Serve)
    };
    assert_eq!(
        run.after(StartupReply::Failed),
        StartupStep::Finished(StartupEnd {
            failure: Some(StartupFailure::Boundary(StartupStage::OpenConfig)),
            trace: StartupTrace::ConfigError,
        })
    );
    let probing = Startup {
        stage: StartupStage::ProbeCredential,
        credential: Some(source(1)),
        ..run
    };
    assert_eq!(
        probing.after(StartupReply::Probed {
            credential: Some(source(2)),
        }),
        StartupStep::Finished(StartupEnd {
            failure: Some(StartupFailure::CredentialChanged),
            trace: StartupTrace::Nothing,
        })
    );
    let checking = Startup {
        stage: StartupStage::ConstructStorage,
        ..Startup::begin(RunMode::StorageReadinessOnly)
    };
    assert_eq!(
        checking.after(StartupReply::Storage { ready: false }),
        StartupStep::Finished(StartupEnd {
            failure: Some(StartupFailure::StorageNotReady),
            trace: StartupTrace::Nothing,
        })
    );
    assert_eq!(
        reported_credential_name(EmbeddingSecurityMode::AeadCached),
        Some("howy.storage.mode1.epoch1")
    );
    assert_eq!(
        reported_credential_name(EmbeddingSecurityMode::Plaintext),
        None
    );
}
