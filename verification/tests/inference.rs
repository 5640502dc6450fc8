//! Models, providers, outputs and detections.
use howy_daemon::detection::{
    align_and_preprocess_recognition, nms, preprocess_detection_into, scrfd_candidate_capacity,
    scrfd_candidates, Candidate, Corners,
};
use howy_daemon::engine::{
    analyze, engine_model_paths, migraphx_fp16, EngineBuild, EngineError, EngineStep, ModelSource,
    SessionModel,
};
use howy_daemon::float_bits::{
    is_at_most32, is_at_most64, is_finite32, is_finite64, is_less32, is_less64, ranks_below64,
};
use howy_daemon::inference::{
    after_model_attempt, begin_model_search, begin_registration, build_execution_providers,
    configure_execution_providers, extract_valid_recognizer_output, has_credential_name,
    inference_plaintext_scratch_bytes, open_model_candidate, registered_preferred_provider,
    resolve_models_with_recognizer, validate_frame_buffer, validate_output_count,
    validate_recognizer_output_facts, validate_scrfd_output_facts, validate_scrfd_outputs,
    FileIdentity, HashAction, InferenceError, InferenceProfiling, ModelCandidate,
    ModelDigestError, ModelError, ModelHash, ModelOutput, ModelPlace, ModelStep, ProviderKind,
    RegistrationStep, ResolvedModel, FACE_EMBEDDING_DIM, SCRFD_OUTPUT_COUNT,
};
use howy_daemon::mode1_key::{
    CredentialSourceIdentity, DescriptorIdentity, MODE1_CREDENTIAL_NAME,
};
use howy_daemon::scrfd::{postprocess_scrfd, Anchor, DetectedFace};
use std::cell::Cell;

const FACE_BYTES: usize = 88;

fn bits(values: &[f32]) -> Vec<u32> {
    values.iter().map(|value| value.to_bits()).collect()
}

fn norm_is_useful(values: &[f32]) -> bool {
    let norm = values
        .iter()
        .map(|value| f64::from(*value).powi(2))
        .sum::<f64>()
        .sqrt();
    norm > 1e-6
}

fn recognizer_facts(shape: &[usize], values: Option<&[f32]>) -> Result<(), InferenceError> {
    let kept = values.map(bits);
    validate_recognizer_output_facts(
        shape,
        kept.as_deref(),
        values.map(norm_is_useful).unwrap_or(false),
    )
}

fn scrfd_facts(
    index: usize,
    shape: &[usize],
    values: Option<&[f32]>,
) -> Result<(), InferenceError> {
    let kept = values.map(bits);
    validate_scrfd_output_facts(index, 640, 640, shape, kept.as_deref())
}

#[test]
fn output_counts_are_exact() {
    assert!(validate_output_count("SCRFD", SCRFD_OUTPUT_COUNT, SCRFD_OUTPUT_COUNT).is_ok());
    assert!(validate_output_count("SCRFD", SCRFD_OUTPUT_COUNT - 1, SCRFD_OUTPUT_COUNT).is_err());
    assert!(validate_output_count("SCRFD", SCRFD_OUTPUT_COUNT + 1, SCRFD_OUTPUT_COUNT).is_err());
    assert!(validate_output_count("recognizer", 0, 1).is_err());
    assert!(validate_output_count("recognizer", 2, 1).is_err());
}

#[test]
fn plaintext_peak_covers_inputs_outputs_and_worst_case_nms() {
    assert_eq!(
        inference_plaintext_scratch_bytes(640, 640, FACE_BYTES).unwrap(),
        9_047_328
    );
    assert!(inference_plaintext_scratch_bytes(641, 640, FACE_BYTES).is_err());
}

#[test]
fn scrfd_accepts_actual_and_explicit_batch_shapes() {
    let scores = vec![0.0; 12_800];
    assert!(scrfd_facts(0, &[12_800, 1], Some(&scores)).is_ok());
    assert!(scrfd_facts(0, &[1, 12_800, 1], Some(&scores)).is_ok());

    let boxes = vec![0.0; 3_200 * 4];
    assert!(scrfd_facts(4, &[3_200, 4], Some(&boxes)).is_ok());
    let landmarks = vec![0.0; 800 * 10];
    assert!(scrfd_facts(8, &[800, 10], Some(&landmarks)).is_ok());
}

#[test]
fn scrfd_rejects_bad_shape_length_layout_and_values() {
    let valid = vec![0.0; 12_800];
    assert!(scrfd_facts(0, &[1, 1, 12_800], Some(&valid)).is_err());
    assert!(scrfd_facts(0, &[12_800, 4], Some(&valid)).is_err());
    assert!(scrfd_facts(0, &[12_800, 1], Some(&valid[..10])).is_err());
    assert!(scrfd_facts(0, &[12_800, 1], None).is_err());

    let mut non_finite = valid;
    non_finite[0] = f32::NAN;
    assert!(scrfd_facts(0, &[12_800, 1], Some(&non_finite)).is_err());
    non_finite[0] = f32::INFINITY;
    assert!(scrfd_facts(0, &[12_800, 1], Some(&non_finite)).is_err());
}

#[test]
fn recognizer_requires_exact_shape_contiguous_finite_nonzero_data() {
    let valid = vec![1.0; FACE_EMBEDDING_DIM];
    assert!(recognizer_facts(&[1, FACE_EMBEDDING_DIM], Some(&valid)).is_ok());
    assert!(recognizer_facts(&[FACE_EMBEDDING_DIM], Some(&valid)).is_err());
    assert!(recognizer_facts(&[1, FACE_EMBEDDING_DIM, 1], Some(&valid)).is_err());
    assert!(recognizer_facts(&[2, FACE_EMBEDDING_DIM], Some(&valid)).is_err());
    assert!(recognizer_facts(
        &[1, FACE_EMBEDDING_DIM],
        Some(&valid[..FACE_EMBEDDING_DIM - 1]),
    )
    .is_err());
    assert!(recognizer_facts(&[1, FACE_EMBEDDING_DIM], None).is_err());
    assert!(recognizer_facts(
        &[1, FACE_EMBEDDING_DIM],
        Some(&vec![0.0; FACE_EMBEDDING_DIM])
    )
    .is_err());

    let mut non_finite = valid;
    non_finite[0] = f32::NAN;
    assert!(recognizer_facts(&[1, FACE_EMBEDDING_DIM], Some(&non_finite)).is_err());
    non_finite[0] = f32::NEG_INFINITY;
    assert!(recognizer_facts(&[1, FACE_EMBEDDING_DIM], Some(&non_finite)).is_err());
}

#[test]
fn cached_accelerated_registration_plan_omits_cpu() {
    assert_eq!(
        build_execution_providers("migraphx", false).unwrap(),
        vec![ProviderKind::Migraphx]
    );
    assert_eq!(
        build_execution_providers("migraphx", true).unwrap(),
        vec![ProviderKind::Migraphx, ProviderKind::Cpu]
    );
}

#[test]
fn provider_plans_follow_the_name() {
    assert_eq!(
        build_execution_providers(" AUTO ", false).unwrap(),
        [
            ProviderKind::TensorRt,
            ProviderKind::Cuda,
            ProviderKind::Migraphx,
            ProviderKind::OpenVino,
        ]
    );
    assert_eq!(
        build_execution_providers("cpu", false).unwrap(),
        [ProviderKind::Cpu]
    );
    assert!(build_execution_providers("unheard-of", false)
        .unwrap()
        .is_empty());
    assert_eq!(ProviderKind::OpenVino.name(), "openvino");
    assert_eq!(registered_preferred_provider("cuda", "cuda"), "cuda");
    assert_eq!(registered_preferred_provider("cuda", "cpu"), "mixed");
}

#[test]
fn providers_are_registered_until_the_plan_ends() {
    let plan = vec![ProviderKind::Cuda, ProviderKind::Migraphx, ProviderKind::Cpu];
    let (state, step) = begin_registration(&plan);
    assert_eq!(step, RegistrationStep::Register(ProviderKind::Cuda));
    let (state, step) = configure_execution_providers(&plan, state, false);
    assert_eq!(step, RegistrationStep::Register(ProviderKind::Migraphx));
    let (state, step) = configure_execution_providers(&plan, state, true);
    assert_eq!(step, RegistrationStep::Register(ProviderKind::Cpu));
    let (_, step) = configure_execution_providers(&plan, state, true);
    assert_eq!(step, RegistrationStep::Finished(ProviderKind::Migraphx));
    let (_, step) = configure_execution_providers(&plan, state, false);
    assert_eq!(step, RegistrationStep::RequiredFailed(ProviderKind::Cpu));
    let alone = vec![ProviderKind::Cuda];
    let (state, _) = begin_registration(&alone);
    assert_eq!(
        configure_execution_providers(&alone, state, false).1,
        RegistrationStep::NoneRegistered
    );
    assert_eq!(
        begin_registration(&Vec::new()).1,
        RegistrationStep::NoneRegistered
    );
}

#[test]
fn engines_are_built_detector_first() {
    let mut build = EngineBuild::begin("migraphx", true, 2, true, false, true);
    let mut steps = Vec::new();
    loop {
        match build.step {
            EngineStep::Ready {
                detector,
                recognizer,
            } => {
                assert_eq!(detector, ProviderKind::Migraphx);
                assert_eq!(recognizer, ProviderKind::Migraphx);
                break;
            }
            EngineStep::Fail(error) => panic!("unexpected {error:?}"),
            step => {
                steps.push(step);
                build.after(true);
            }
        }
    }
    let session = |model: SessionModel| {
        [
            EngineStep::Create(model),
            EngineStep::Optimize(model),
            EngineStep::SetThreads(model),
            EngineStep::SetProfiling(model),
            EngineStep::Register(model, ProviderKind::Migraphx),
            EngineStep::Register(model, ProviderKind::Cpu),
            EngineStep::Load(model, ModelSource::Descriptors),
        ]
    };
    let mut expected = session(SessionModel::Detector).to_vec();
    expected.extend(session(SessionModel::Recognizer));
    assert_eq!(steps, expected);

    let nothing = EngineBuild::begin("cpu", true, 0, false, false, false);
    assert_eq!(nothing.step, EngineStep::Fail(EngineError::ModelsRequired));
    let mut failing = EngineBuild::begin("cpu", true, 0, false, true, false);
    failing.after(false);
    assert_eq!(
        failing.step,
        EngineStep::Fail(EngineError::Runtime(SessionModel::Detector))
    );
    assert!(!migraphx_fp16(None));
    assert!(migraphx_fp16(Some(&InferenceProfiling {
        detector_path: Vec::new(),
        recognizer_path: Vec::new(),
        migraphx_fp16: Some(true),
    })));
}

#[test]
fn ready_engines_name_the_first_providers_that_registered() {
    let mut build = EngineBuild::begin("auto", true, 0, false, true, false);
    while !matches!(build.step, EngineStep::Ready { .. } | EngineStep::Fail(_)) {
        let succeeded = match build.step {
            EngineStep::Register(SessionModel::Detector, kind) => {
                !matches!(kind, ProviderKind::TensorRt | ProviderKind::Cuda)
            }
            EngineStep::Register(SessionModel::Recognizer, kind) => kind == ProviderKind::Cpu,
            _ => true,
        };
        build.after(succeeded);
    }
    assert_eq!(
        build.step,
        EngineStep::Ready {
            detector: ProviderKind::Migraphx,
            recognizer: ProviderKind::Cpu,
        }
    );
}

fn detected(score: f32) -> DetectedFace {
    DetectedFace {
        bbox: [0, 0, 1, 1],
        landmarks: vec![0; 10],
        score: score.to_bits(),
    }
}

#[test]
fn analyses_hold_all_embeddings_or_the_first_error() {
    let encode = |face: &DetectedFace| {
        if face.score == 0 {
            Err("no embedding")
        } else {
            Ok(vec![face.score])
        }
    };
    let found = analyze(|| Ok(vec![detected(0.9), detected(0.5)]), &encode).unwrap();
    assert_eq!(found.faces.len(), 2);
    assert_eq!(
        found.embeddings,
        [vec![0.9_f32.to_bits()], vec![0.5_f32.to_bits()]]
    );
    assert_eq!(
        analyze(|| Ok(vec![detected(0.9), detected(0.0)]), &encode).err(),
        Some("no embedding")
    );
    assert_eq!(analyze(|| Err("no frame"), &encode).err(), Some("no frame"));
    assert!(analyze(|| Ok(Vec::new()), &encode).unwrap().faces.is_empty());

    let whole = |face: &DetectedFace| Ok::<_, &str>(vec![face.score; FACE_EMBEDDING_DIM]);
    let found = analyze(|| Ok(vec![detected(0.9), detected(0.5)]), &whole).unwrap();
    assert_eq!(found.embeddings[0].len(), FACE_EMBEDDING_DIM);
    assert_eq!(found.embeddings[1].len(), FACE_EMBEDDING_DIM);
}

fn resolved(path: &str, descriptor: u32) -> ResolvedModel {
    ResolvedModel {
        path: path.as_bytes().to_vec(),
        descriptor,
    }
}

#[test]
fn models_are_read_through_their_descriptors() {
    let models =
        resolve_models_with_recognizer(Ok(resolved("/m/det.onnx", 5)), resolved("/m/rec.onnx", 6))
            .unwrap();
    assert_eq!(models.detector().descriptor_path(), "/proc/self/fd/5");
    assert_eq!(models.recognizer().display_path(), b"/m/rec.onnx");
    let (detector, recognizer) = engine_model_paths(Some(&models), false).unwrap();
    assert_eq!(detector, b"/m/det.onnx");
    assert_eq!(recognizer, b"/m/rec.onnx");
    assert!(resolve_models_with_recognizer(
        Err(ModelError::ConfiguredNotFound),
        resolved("/m/rec.onnx", 6)
    )
    .is_err());
}

fn file_identity(length: u64) -> FileIdentity {
    FileIdentity {
        device: 1,
        inode: 2,
        uid: 0,
        gid: 0,
        mode: 0o100_644,
        links: 1,
        length,
        mtime: 3,
        mtime_nsec: 4,
        ctime: 5,
        ctime_nsec: 6,
    }
}

fn digest(bytes: &[u8], maximum: u64) -> Result<Vec<u8>, ModelDigestError> {
    let identity = file_identity(bytes.len() as u64);
    let mut hash = ModelHash::begin(identity, maximum)?;
    loop {
        match hash.action(false)? {
            HashAction::Read { offset, amount } => {
                let start = offset as usize;
                hash.add_piece(&bytes[start..start + amount])?;
            }
            HashAction::Probe { offset } => {
                assert_eq!(offset, bytes.len() as u64);
                return hash.finish_digest(0, identity);
            }
        }
    }
}

#[test]
fn readiness_digest_streams_the_pinned_recognizer_under_an_exact_bound() {
    let bytes = vec![0x5a; 128 * 1024 + 17];
    let streamed = digest(&bytes, bytes.len() as u64).unwrap();
    assert_eq!(streamed.len(), 32);
    assert_eq!(
        streamed,
        <sha2::Sha256 as sha2::Digest>::digest(&bytes).to_vec()
    );
    assert!(digest(&bytes, bytes.len() as u64 - 1).is_err());
    assert!(digest(&[], 1).is_err());
}

#[test]
fn files_that_change_are_not_digested() {
    let identity = file_identity(4);
    let mut hash = ModelHash::begin(identity, 100).unwrap();
    assert_eq!(hash.action(true), Err(ModelDigestError::Cancelled));
    assert_eq!(hash.add_piece(&[]), Err(ModelDigestError::BecameShorter));

    let whole = |behind: usize, after: FileIdentity| {
        let mut hash = ModelHash::begin(identity, 100).unwrap();
        hash.add_piece(b"abcd").unwrap();
        hash.finish_digest(behind, after)
    };
    assert!(whole(0, identity).is_ok());
    assert_eq!(whole(1, identity), Err(ModelDigestError::BecameLonger));
    assert_eq!(
        whole(
            0,
            FileIdentity {
                mtime: 9,
                ..identity
            }
        ),
        Err(ModelDigestError::Changed)
    );
    assert_eq!(
        ModelHash::begin(file_identity(101), 100).err(),
        Some(ModelDigestError::SizeLimit)
    );
    assert!(!ModelDigestError::Changed.message().is_empty());
}

fn guard() -> CredentialSourceIdentity {
    CredentialSourceIdentity {
        directory: DescriptorIdentity {
            device: 1,
            inode: 10,
        },
        credential: DescriptorIdentity {
            device: 1,
            inode: 11,
        },
        source_companion: None,
    }
}

fn candidate(directory: u64, file: u64) -> ModelCandidate {
    ModelCandidate {
        directory: Some(DescriptorIdentity {
            device: 1,
            inode: directory,
        }),
        file: Some(DescriptorIdentity {
            device: 1,
            inode: file,
        }),
        is_file: true,
    }
}

#[test]
fn no_alias_of_the_credential_is_taken_as_a_model() {
    let named = format!("/run/credentials/{MODE1_CREDENTIAL_NAME}");
    assert!(has_credential_name(named.as_bytes(), guard()));
    assert_eq!(
        open_model_candidate(named.as_bytes(), Some(guard()), candidate(10, 12)),
        Err(ModelError::CredentialAlias)
    );
    assert_eq!(
        open_model_candidate(b"/home/alias.onnx", Some(guard()), candidate(7, 11)),
        Err(ModelError::CredentialAlias)
    );
    assert_eq!(
        open_model_candidate(b"/home/model.onnx", Some(guard()), candidate(7, 12)),
        Ok(())
    );
    assert_eq!(
        open_model_candidate(b"/home/alias.onnx", None, candidate(7, 11)),
        Ok(())
    );
    assert_eq!(
        open_model_candidate(
            b"/home/model.onnx",
            None,
            ModelCandidate {
                is_file: false,
                ..candidate(7, 12)
            }
        ),
        Err(ModelError::Unusable)
    );
}

#[test]
fn automatic_model_credentials_accept_only_the_legitimate_fixed_names() {
    for name in ["det_10g.onnx", "w600k_r50.onnx"] {
        assert_eq!(
            begin_model_search("", name, true, true),
            ModelStep::Open(ModelPlace::Credential)
        );
    }
    assert_eq!(
        begin_model_search("", "not-a-howdy-model-credential.onnx", true, true),
        ModelStep::Open(ModelPlace::Standard)
    );
    assert_eq!(
        begin_model_search("", MODE1_CREDENTIAL_NAME, true, true),
        ModelStep::Fail(ModelError::CredentialAlias)
    );
}

#[test]
fn storage_key_name_is_never_a_generic_model_credential_name() {
    for has_credential_directory in [false, true] {
        assert_eq!(
            begin_model_search("", MODE1_CREDENTIAL_NAME, true, has_credential_directory),
            ModelStep::Fail(ModelError::CredentialAlias)
        );
    }
}

#[test]
fn searches_for_models_end() {
    assert_eq!(
        begin_model_search("/m.onnx", "det_10g.onnx", false, true),
        ModelStep::Open(ModelPlace::Configured)
    );
    assert_eq!(
        after_model_attempt(ModelPlace::Configured, Some(Ok(()))),
        ModelStep::Accept(ModelPlace::Configured)
    );
    assert_eq!(
        after_model_attempt(ModelPlace::Configured, Some(Err(ModelError::Unusable))),
        ModelStep::Fail(ModelError::ConfiguredNotFound)
    );
    assert_eq!(
        after_model_attempt(ModelPlace::Credential, Some(Err(ModelError::Unusable))),
        ModelStep::Open(ModelPlace::Standard)
    );
    assert_eq!(
        after_model_attempt(
            ModelPlace::Credential,
            Some(Err(ModelError::CredentialAlias))
        ),
        ModelStep::Fail(ModelError::CredentialAlias)
    );
    assert_eq!(
        after_model_attempt(ModelPlace::Standard, None),
        ModelStep::Fail(ModelError::NotInstalled)
    );
}

fn output(shape: Vec<usize>) -> Option<ModelOutput> {
    let count: usize = shape.iter().product();
    Some(ModelOutput {
        shape,
        values: Some(vec![0; count]),
    })
}

#[test]
fn detector_outputs_are_checked_in_order() {
    let all = || -> Vec<Option<ModelOutput>> {
        let mut outputs = Vec::new();
        for width in [1, 4, 10] {
            for anchors in [12_800, 3_200, 800] {
                outputs.push(output(vec![anchors, width]));
            }
        }
        outputs
    };
    assert_eq!(validate_scrfd_outputs(&all(), 640, 640), Ok(()));
    let mut missing = all();
    missing[3] = None;
    missing[5] = None;
    assert_eq!(
        validate_scrfd_outputs(&missing, 640, 640),
        Err(InferenceError::Extraction { index: 3 })
    );
    let mut few = all();
    few.pop();
    assert_eq!(
        validate_scrfd_outputs(&few, 640, 640),
        Err(InferenceError::OutputCount {
            model: "SCRFD",
            actual: 8,
            expected: 9,
        })
    );
    assert_eq!(
        validate_scrfd_output_facts(9, 640, 640, &[1], None),
        Err(InferenceError::OutputIndex { index: 9 })
    );
    assert_eq!(
        validate_scrfd_output_facts(0, 644, 640, &[1], None),
        Err(InferenceError::Stride { stride: 8 })
    );
    let embedding = vec![Some(ModelOutput {
        shape: vec![1, FACE_EMBEDDING_DIM],
        values: Some(vec![1.0_f32.to_bits(); FACE_EMBEDDING_DIM]),
    })];
    assert_eq!(
        extract_valid_recognizer_output(&embedding, true).unwrap(),
        vec![1.0_f32.to_bits(); FACE_EMBEDDING_DIM]
    );
    assert_eq!(
        extract_valid_recognizer_output(&embedding, false),
        Err(InferenceError::RecognizerNorm)
    );
}

#[test]
fn frames_must_hold_what_they_claim() {
    assert!(validate_frame_buffer(&[0; 12], 2, 2, false).is_ok());
    assert_eq!(
        validate_frame_buffer(&[0; 11], 2, 2, false),
        Err(InferenceError::FrameTooSmall {
            actual: 11,
            expected: 12,
        })
    );
    assert_eq!(
        validate_frame_buffer(&[0; 2], 1, 1, true),
        Err(InferenceError::FrameTooLarge {
            actual: 2,
            expected: 1,
        })
    );
    assert_eq!(
        validate_frame_buffer(&[], 0, 2, true),
        Err(InferenceError::FrameZero {
            width: 0,
            height: 2,
        })
    );
}

#[test]
fn comparisons_agree_with_the_numbers() {
    let numbers = [
        0.0_f32,
        -0.0,
        1.0,
        -1.0,
        f32::MIN_POSITIVE,
        f32::MAX,
        f32::INFINITY,
        f32::NEG_INFINITY,
        f32::NAN,
        -2.5,
    ];
    for left in numbers {
        assert_eq!(is_finite32(left.to_bits()), left.is_finite());
        assert_eq!(
            is_finite64(f64::from(left).to_bits()),
            left.is_finite()
        );
        for right in numbers {
            let (wide_left, wide_right) = (f64::from(left), f64::from(right));
            assert_eq!(is_less32(left.to_bits(), right.to_bits()), left < right);
            assert_eq!(is_at_most32(left.to_bits(), right.to_bits()), left <= right);
            assert_eq!(
                is_less64(wide_left.to_bits(), wide_right.to_bits()),
                left < right
            );
            assert_eq!(
                is_at_most64(wide_left.to_bits(), wide_right.to_bits()),
                left <= right
            );
            assert_eq!(
                ranks_below64(wide_left.to_bits(), wide_right.to_bits()),
                wide_left.total_cmp(&wide_right).is_lt()
            );
        }
    }
}

#[test]
fn detector_inputs_are_planes_in_opposite_order() {
    let value = |byte: u8| u32::from(byte);
    let mut input = vec![7_u32; 3 * 2 * 2];
    preprocess_detection_into(
        &mut input,
        &[1, 2, 3, 4, 5, 6],
        2,
        1,
        2,
        2,
        false,
        &vec![0, 1],
        &vec![0],
        &value,
        99,
    );
    assert_eq!(input, [3, 6, 99, 99, 2, 5, 99, 99, 1, 4, 99, 99]);

    let mut scaled = vec![0_u32; 3 * 3 * 2];
    preprocess_detection_into(
        &mut scaled,
        &[10, 20, 30, 40, 50, 60, 70, 80],
        4,
        2,
        3,
        2,
        true,
        &vec![0, 9],
        &vec![1],
        &value,
        0,
    );
    assert_eq!(&scaled[..6], [50, 80, 0, 0, 0, 0]);
    assert_eq!(&scaled[6..12], &scaled[..6]);
    assert_eq!(&scaled[12..], &scaled[..6]);

    let mut again = vec![123_u32; 3 * 3 * 2];
    preprocess_detection_into(
        &mut again,
        &[10, 20, 30, 40, 50, 60, 70, 80],
        4,
        2,
        3,
        2,
        true,
        &vec![0, 9],
        &vec![1],
        &value,
        0,
    );
    assert_eq!(again, scaled);
    assert!(again.iter().all(|value| *value <= 255));
}

#[test]
fn aligned_faces_take_points_inside_the_frame_only() {
    let mut aligned = vec![1_u32; 3 * 112 * 112];
    let seen = Cell::new(0);
    align_and_preprocess_recognition(
        &mut aligned,
        &[1, 2, 3, 4, 5, 6, 7, 8, 9, 10, 11, 12],
        2,
        2,
        false,
        &|x, y| {
            if (x, y) == (3, 2) {
                (0, 0)
            } else {
                (x as i32 + 1, -1)
            }
        },
        &|corners: Corners, x, y| {
            seen.set(seen.get() + 1);
            assert_eq!((x, y), (3, 2));
            u32::from(corners.left_top) * 1_000_000
                + u32::from(corners.right_top) * 10_000
                + u32::from(corners.left_bottom) * 100
                + u32::from(corners.right_bottom)
        },
        77,
    );
    assert_eq!(seen.get(), 3);
    let at = 2 * 112 + 3;
    let plane = 112 * 112;
    assert_eq!(aligned[at], 3_060_912);
    assert_eq!(aligned[plane + at], 2_050_811);
    assert_eq!(aligned[2 * plane + at], 1_040_710);
    assert_eq!(aligned.iter().filter(|value| **value == 77).count(), 3 * plane - 3);
}

#[test]
fn candidates_lie_above_the_threshold_and_in_the_map() {
    let scores = bits(&[0.9, 0.5, 0.2, 0.8, 0.7, 0.6, 1.0, 1.0, 0.99]);
    assert_eq!(
        scrfd_candidates(&scores, 0.5_f32.to_bits(), 2, 2),
        [
            Candidate {
                index: 0,
                cell_x: 0,
                cell_y: 0,
                score: 0.9_f32.to_bits(),
            },
            Candidate {
                index: 3,
                cell_x: 1,
                cell_y: 0,
                score: 0.8_f32.to_bits(),
            },
            Candidate {
                index: 4,
                cell_x: 0,
                cell_y: 1,
                score: 0.7_f32.to_bits(),
            },
            Candidate {
                index: 5,
                cell_x: 0,
                cell_y: 1,
                score: 0.6_f32.to_bits(),
            },
            Candidate {
                index: 6,
                cell_x: 1,
                cell_y: 1,
                score: 1.0_f32.to_bits(),
            },
            Candidate {
                index: 7,
                cell_x: 1,
                cell_y: 1,
                score: 1.0_f32.to_bits(),
            },
        ]
    );
    assert_eq!(scrfd_candidate_capacity(640, 640), Some(16_800));
}

#[test]
fn suppression_keeps_the_best_of_each_face() {
    let scores = bits(&[0.2, 0.9, 0.5, 0.9, 0.1]);
    let same = |a: usize, b: usize| (a == 1 && b == 3) || (a == 2 && b == 0);
    assert_eq!(nms(&scores, &same), [1, 2, 4]);
    assert_eq!(nms(&scores, &|_, _| false), [1, 3, 2, 0, 4]);
    assert_eq!(nms(&scores, &|_, _| true), [1]);
    assert!(nms(&Vec::new(), &|_, _| true).is_empty());
    let kept = nms(&scores, &same);
    let kept_scores: Vec<u32> = kept.iter().map(|face| scores[*face]).collect();
    assert_eq!(
        nms(&kept_scores, &|a: usize, b: usize| same(kept[a], kept[b])),
        [0, 1, 2]
    );
}

fn scrfd_outputs(scores: &[(usize, f32)]) -> Vec<Option<ModelOutput>> {
    let anchors = [32, 8, 2];
    let mut outputs = Vec::new();
    for channels in [1, 4, 10] {
        for anchors in anchors {
            outputs.push(Some(ModelOutput {
                shape: vec![anchors, channels],
                values: Some(vec![0.0_f32.to_bits(); anchors * channels]),
            }));
        }
    }
    for (index, score) in scores {
        outputs[0].as_mut().unwrap().values.as_mut().unwrap()[*index] = score.to_bits();
    }
    outputs
}

#[test]
fn detections_are_decoded_and_suppressed() {
    let decode = |anchor: Anchor, corners: &[u32], points: &[u32]| {
        assert_eq!((anchor.stride, corners.len(), points.len()), (8, 4, 10));
        let x = (anchor.stride * anchor.cell_x) as i32;
        let y = (anchor.stride * anchor.cell_y) as i32;
        ([x, y, x + 8, y + 8], points.to_vec())
    };
    let overlap = |left: [i32; 4], right: [i32; 4]| {
        if left == right {
            1.0_f32.to_bits()
        } else {
            0.4_f32.to_bits()
        }
    };
    let outputs = scrfd_outputs(&[(0, 0.7), (1, 0.9), (11, 0.8), (12, 0.3)]);
    let threshold = 0.5_f32.to_bits();
    let faces = postprocess_scrfd(&outputs, 32, 32, threshold, &decode, &overlap).unwrap();
    assert_eq!(faces.len(), 2);
    assert_eq!(faces[0].bbox, [0, 0, 8, 8]);
    assert_eq!(faces[0].score, 0.9_f32.to_bits());
    assert_eq!(faces[1].bbox, [8, 8, 16, 16]);
    assert_eq!(faces[1].landmarks.len(), 10);
    let mut missing = scrfd_outputs(&[]);
    missing[3] = None;
    assert!(postprocess_scrfd(&missing, 32, 32, threshold, &decode, &overlap).is_err());
    missing.pop();
    assert_eq!(
        postprocess_scrfd(&missing, 32, 32, threshold, &decode, &overlap).unwrap_err(),
        InferenceError::OutputCount {
            model: "SCRFD",
            actual: 8,
            expected: 9,
        }
    );
}
