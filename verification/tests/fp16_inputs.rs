//! What an experiment is told, what it reads, and where it works.
use howy_daemon::digest::digest_hex;
use howy_daemon::fp16_args::{
    flag, flag_bytes, parse_flags, parse_number, parse_parent_args, validate_config_paths,
    validate_hsa_override, validate_numeric_configuration, validate_token, ArgsError, FlagName,
    Gates, ParentConfig, PathsError, ReadNumbers,
};
use howy_daemon::fp16_cache::{
    check_before_read_only, check_read_only, complete_inventory, directory_names,
    verify_cache_inventory, CacheArtifact, CacheError, CacheWalk, EntryKind, WalkStep,
};
use howy_daemon::fp16_corpus::{
    accept_input, check_dimensions, check_face_count, check_input, corpus_digest, decode_fixture,
    frame_of_decoded, inspect_image_dimensions, is_private_directory,
    validate_pixels, verify_corpus_digest, verify_hash_coherence, ArtifactStamp, CorpusError,
    CorpusPin, DigestRead, FileId, FixtureClass, InputError, InputMetadata, ManifestEntry,
    PinnedCorpus, PinnedFixture, RgbImage, SecureBlob,
};
use howy_daemon::fp16_environment::{
    configure_worker_environment, pair_order, phase_name, redact_diagnostic, replace_all,
    reviewed_environment, validate_actual_environment, ActualVariable, EnvironmentError,
    Precision, WorkerPhase,
};
use howy_daemon::fp16_layout::{
    check_cleanup_depth, check_experiment_root, experiment_root_names, output_place,
    pair_directory, run_id, run_name, temporary_name, LayoutError,
};
use howy_daemon::fp16_model::{
    parse_and_validate_enrolled_model, validate_normalized_embedding, ModelError, ModelReader,
};
use image::ImageEncoder;
use std::collections::HashSet;

const FACE_EMBEDDING_DIM: usize = 512;

fn words(list: &[&str]) -> Vec<Vec<u8>> {
    list.iter().map(|word| word.as_bytes().to_vec()).collect()
}

fn unit_embedding(index: usize) -> Vec<u32> {
    let mut value = vec![0.0_f32.to_bits(); FACE_EMBEDDING_DIM];
    value[index] = 1.0_f32.to_bits();
    value
}

fn is_unit(values: &[u32]) -> bool {
    let norm = values
        .iter()
        .map(|bits| f64::from(f32::from_bits(*bits)).powi(2))
        .sum::<f64>()
        .sqrt();
    (norm - 1.0).abs() <= 1e-3
}

fn config() -> ParentConfig {
    ParentConfig {
        experiment_root: b"/tmp/howy-redact".to_vec(),
        fixture_dir: b"/tmp/howy-redact/fixtures".to_vec(),
        manifest: b"/tmp/howy-redact/manifest".to_vec(),
        detector_model: b"/tmp/howy-redact/detector".to_vec(),
        recognizer_model: b"/tmp/howy-redact/recognizer".to_vec(),
        enrolled_model: None,
        result: b"/tmp/howy-redact/result".to_vec(),
        diagnostics: None,
        threshold: 0.5_f32.to_bits(),
        hsa_override: "11.0.2".into(),
        configured_gpu_target: "gfx1103".into(),
        pairs: 2,
        deadline_secs: 1,
        allow_mixed: false,
        gates: Gates::default(),
    }
}

#[test]
fn environment_is_scrubbed_and_fully_attested() {
    let env = reviewed_environment(Precision::Fp16, "11.0.2");
    let value = |key: &str| {
        env.set
            .iter()
            .find(|variable| variable.key == key)
            .map(|variable| variable.value.clone())
    };
    assert_eq!(value("ORT_MIGRAPHX_FP16_ENABLE").unwrap(), "1");
    for key in [
        "ORT_MIGRAPHX_BF16_ENABLE",
        "ORT_MIGRAPHX_FP8_ENABLE",
        "ORT_MIGRAPHX_INT8_ENABLE",
        "ORT_MIGRAPHX_EXHAUSTIVE_TUNE",
        "ORT_MIGRAPHX_DUMP_MODEL",
    ] {
        assert_eq!(value(key).unwrap(), "0");
    }
    assert!(env
        .cleared
        .contains(&"ORT_MIGRAPHX_SAVE_COMPILED_MODEL".to_string()));
    let configured: HashSet<String> = configure_worker_environment("capability", &env)
        .into_iter()
        .map(|variable| variable.key)
        .collect();
    assert!(!configured.contains("HOME"));
    assert!(configured.contains("HOWY_FP16_CAPABILITY"));
    assert!(configured.contains("ORT_MIGRAPHX_FP16_ENABLE"));
}

#[test]
fn workers_run_in_exactly_the_attested_environment() {
    let expected = reviewed_environment(Precision::Fp32, "11.0.2");
    let actual = || -> Vec<ActualVariable> {
        configure_worker_environment("00ff", &expected)
            .into_iter()
            .map(|variable| ActualVariable {
                key: variable.key.into_bytes(),
                value: variable.value.into_bytes(),
            })
            .collect()
    };
    assert_eq!(validate_actual_environment(&expected, &actual()), Ok(()));
    let mut changed = actual();
    let path = changed
        .iter()
        .position(|variable| variable.key == b"PATH")
        .unwrap();
    changed[path].value = b"/tmp".to_vec();
    assert_eq!(
        validate_actual_environment(&expected, &changed),
        Err(EnvironmentError::AttestationMismatch)
    );
    let mut unclean = actual();
    unclean.push(ActualVariable {
        key: b"MIGRAPHX_TRACE_EVAL".to_vec(),
        value: b"1".to_vec(),
    });
    assert_eq!(
        validate_actual_environment(&expected, &unclean),
        Err(EnvironmentError::ClearanceMismatch)
    );
    let mut extra = actual();
    extra.push(ActualVariable {
        key: b"HOME".to_vec(),
        value: b"/root".to_vec(),
    });
    assert_eq!(
        validate_actual_environment(&expected, &extra),
        Err(EnvironmentError::NotHermetic)
    );
}

#[test]
fn ab_ba_order_alternates() {
    assert_eq!(pair_order(0), [Precision::Fp32, Precision::Fp16]);
    assert_eq!(pair_order(1), [Precision::Fp16, Precision::Fp32]);
    assert_eq!(Precision::Fp16.name(), "fp16");
    assert!(!Precision::Fp32.fp16());
    assert_ne!(
        phase_name(WorkerPhase::CacheGeneration),
        phase_name(WorkerPhase::LoadedCacheMeasurement)
    );
}

#[test]
fn output_redaction_removes_all_configured_paths() {
    let config = config();
    let detail = redact_diagnostic("failed /tmp/howy-redact/fixtures", &config);
    assert!(!detail.contains("/tmp/howy-redact"));
    assert_eq!(replace_all("aXbXc", "X", "--"), "a--b--c");
    assert_eq!(replace_all("aaa", "aa", "b"), "ba");
}

#[test]
fn numeric_configuration_rejects_nan_and_bad_threshold() {
    let gates = Gates {
        max_landmark_rmse: f64::NAN.to_bits(),
        ..Gates::default()
    };
    assert!(!validate_numeric_configuration(0.5_f32.to_bits(), gates));
    assert!(!validate_numeric_configuration(
        1.1_f32.to_bits(),
        Gates::default()
    ));
    assert!(validate_numeric_configuration(
        0.5_f32.to_bits(),
        Gates::default()
    ));
    assert!(validate_hsa_override("11.0.2"));
    assert!(!validate_hsa_override("arbitrary"));
}

#[test]
fn default_gates_have_their_exact_values() {
    let gates = Gates::default();
    assert_eq!(f64::from_bits(gates.min_face_iou), 0.95);
    assert_eq!(f64::from_bits(gates.max_detector_score_drift), 0.01);
    assert_eq!(f64::from_bits(gates.max_landmark_rmse), 1.0);
    assert_eq!(f64::from_bits(gates.min_embedding_cosine), 0.999);
    assert_eq!(f64::from_bits(gates.max_enrolled_score_drift), 0.01);
}

fn full_arguments() -> Vec<Vec<u8>> {
    words(&[
        "--experiment-root",
        "/x",
        "--fixtures",
        "fixtures",
        "--manifest",
        "fixtures.list",
        "--detector-model",
        "det.onnx",
        "--recognizer-model",
        "rec.onnx",
        "--result",
        "result.json",
        "--threshold",
        "0.5",
        "--hsa-override",
        "11.0.2",
        "--configured-gpu-target",
        "gfx1103",
    ])
}

fn no_numbers() -> ReadNumbers {
    ReadNumbers {
        threshold: Some(0.5_f32.to_bits()),
        min_face_iou: None,
        max_detector_score_drift: None,
        max_landmark_rmse: None,
        min_embedding_cosine: None,
        max_enrolled_score_drift: None,
    }
}

#[test]
fn flags_are_named_once_and_known() {
    let entries = parse_flags(&words(&["--pairs", "3", "--allow-mixed-placement"])).unwrap();
    assert_eq!(flag_bytes(&entries, FlagName::Pairs), Some(&b"3"[..]));
    assert!(flag(&entries, FlagName::AllowMixedPlacement));
    assert!(!flag(&entries, FlagName::Diagnostics));
    assert_eq!(
        parse_flags(&words(&["--pairs", "3", "--pairs", "4"])).unwrap_err(),
        ArgsError::UnknownOrDuplicate
    );
    assert_eq!(
        parse_flags(&words(&["--what", "3"])).unwrap_err(),
        ArgsError::UnknownOrDuplicate
    );
    assert_eq!(
        parse_flags(&words(&["pairs"])).unwrap_err(),
        ArgsError::InvalidSyntax
    );
    assert_eq!(
        parse_flags(&words(&["--pairs"])).unwrap_err(),
        ArgsError::MissingValue
    );
    assert_eq!(
        parse_flags(&vec![vec![0xff]]).unwrap_err(),
        ArgsError::NonUtf8Argument
    );
    assert_eq!(FlagName::Pairs.name(), "pairs");
}

#[test]
fn configurations_are_complete_and_bounded() {
    let entries = parse_flags(&full_arguments()).unwrap();
    let config = parse_parent_args(&entries, no_numbers()).unwrap();
    assert_eq!(config.experiment_root, b"/x");
    assert_eq!(config.pairs, 2);
    assert_eq!(config.deadline_secs, 600);
    assert_eq!(config.gates, Gates::default());
    assert!(!config.allow_mixed);

    let with = |extra: &[&str]| {
        let mut list = full_arguments();
        list.extend(words(extra));
        parse_parent_args(&parse_flags(&list).unwrap(), no_numbers())
    };
    assert_eq!(with(&["--pairs", "17"]).unwrap_err(), ArgsError::Limits);
    assert_eq!(with(&["--pairs", "0"]).unwrap_err(), ArgsError::Limits);
    assert_eq!(
        with(&["--pairs", "x"]).unwrap_err(),
        ArgsError::InvalidNumber(FlagName::Pairs)
    );
    assert_eq!(with(&["--pairs", "16"]).unwrap().pairs, 16);

    let mut missing = full_arguments();
    missing.drain(..2);
    assert_eq!(
        parse_parent_args(&parse_flags(&missing).unwrap(), no_numbers()).unwrap_err(),
        ArgsError::Missing(FlagName::ExperimentRoot)
    );
    assert_eq!(
        parse_parent_args(
            &entries,
            ReadNumbers {
                threshold: Some(1.5_f32.to_bits()),
                ..no_numbers()
            }
        )
        .unwrap_err(),
        ArgsError::NumericConfiguration
    );
    assert_eq!(parse_number(b"18446744073709551615"), Some(u64::MAX));
    assert_eq!(parse_number(b"18446744073709551616"), None);
    assert_eq!(parse_number(b""), None);
    assert!(validate_token("gfx1103", 32, false));
    assert!(!validate_token("", 32, false));
}

#[test]
fn outputs_do_not_overwrite_inputs() {
    let relative = || ParentConfig {
        fixture_dir: b"fixtures".to_vec(),
        manifest: b"fixtures.list".to_vec(),
        detector_model: b"det.onnx".to_vec(),
        recognizer_model: b"rec.onnx".to_vec(),
        result: b"out/result.json".to_vec(),
        ..config()
    };
    assert_eq!(validate_config_paths(&relative()), Ok(()));
    assert_eq!(
        validate_config_paths(&ParentConfig {
            manifest: b"../fixtures.list".to_vec(),
            ..relative()
        }),
        Err(PathsError::UnsafeRelativePath)
    );
    assert_eq!(
        validate_config_paths(&ParentConfig {
            diagnostics: Some(b"out/result.json".to_vec()),
            ..relative()
        }),
        Err(PathsError::DiagnosticResultAlias)
    );
    assert_eq!(
        validate_config_paths(&ParentConfig {
            result: b"det.onnx".to_vec(),
            ..relative()
        }),
        Err(PathsError::OutputInputOverlap)
    );
}

fn stamp(length: u64) -> ArtifactStamp {
    ArtifactStamp {
        device: 1,
        inode: 2,
        length,
        mtime: 4,
        mtime_nsec: 5,
        ctime: 6,
        ctime_nsec: 7,
    }
}

#[test]
fn hash_coherence_detects_mtime_and_ctime_changes() {
    let before = stamp(3);
    let mut changed = before;
    changed.mtime += 1;
    assert!(!verify_hash_coherence(&before, &changed, 3));
    changed = before;
    changed.ctime_nsec += 1;
    assert!(!verify_hash_coherence(&before, &changed, 3));
    assert!(verify_hash_coherence(&before, &before, 3));
    assert!(!verify_hash_coherence(&before, &before, 2));
}

#[test]
fn inputs_are_regular_private_and_unchanged() {
    let metadata = InputMetadata {
        stamp: stamp(3),
        is_file: true,
        uid: 1000,
        mode: 0o100_600,
    };
    assert_eq!(check_input(&metadata, 1000, 10, true), Ok(3));
    for (changed, error) in [
        (
            InputMetadata {
                is_file: false,
                ..metadata
            },
            InputError::NotRegular,
        ),
        (
            InputMetadata {
                uid: 1001,
                ..metadata
            },
            InputError::OwnerMismatch,
        ),
        (
            InputMetadata {
                mode: 0o100_644,
                ..metadata
            },
            InputError::ModeTooOpen,
        ),
        (
            InputMetadata {
                stamp: stamp(11),
                ..metadata
            },
            InputError::SizeLimit,
        ),
    ] {
        assert_eq!(check_input(&changed, 1000, 10, true), Err(error));
    }
    let blob = accept_input(&stamp(3), b"abc".to_vec(), &stamp(3)).unwrap();
    assert_eq!(blob.digest, digest_hex(b"abc"));
    assert_eq!(
        blob.identity,
        FileId {
            device: 1,
            inode: 2,
        }
    );
    assert_eq!(
        accept_input(&stamp(3), b"ab".to_vec(), &stamp(3)).unwrap_err(),
        InputError::SizeChanged
    );
    assert_eq!(
        accept_input(
            &stamp(3),
            b"abc".to_vec(),
            &ArtifactStamp {
                ctime: 9,
                ..stamp(3)
            }
        )
        .unwrap_err(),
        InputError::ChangedDuringRead
    );
    assert!(is_private_directory(true, 7, 7, 0o40_700));
    assert!(!is_private_directory(true, 7, 7, 0o40_750));
}

#[test]
fn digests_are_known_and_streamed() {
    assert_eq!(
        digest_hex(b"abc"),
        "ba7816bf8f01cfea414140de5dae2223b00361a396177a9cb410ff61f20015ad"
    );
    let mut read = DigestRead::begin(4);
    assert!(read.add_piece(b"a"));
    assert!(read.add_piece(b"bc"));
    assert_eq!(read.finish_read(), (digest_hex(b"abc"), 3));
    let mut limited = DigestRead::begin(2);
    assert!(!limited.add_piece(b"abc"));
}

#[test]
fn duplicate_fixture_identity_and_content_are_detected() {
    let bytes = b"same";
    assert_eq!(digest_hex(bytes), digest_hex(bytes));
    let mut identities = HashSet::new();
    assert!(identities.insert((1, 2)));
    assert!(!identities.insert((1, 2)));
    let mut digests = HashSet::new();
    assert!(digests.insert(digest_hex(bytes)));
    assert!(!digests.insert(digest_hex(bytes)));
}

fn blob(inode: u64, bytes: &[u8]) -> SecureBlob {
    let stamp = ArtifactStamp {
        inode,
        length: bytes.len() as u64,
        ..stamp(0)
    };
    accept_input(&stamp, bytes.to_vec(), &stamp).unwrap()
}

fn entry(path: &str) -> ManifestEntry {
    ManifestEntry {
        path: path.to_string(),
        class: FixtureClass::Positive,
    }
}

#[test]
fn corpora_pin_distinct_bounded_inputs() {
    let manifest = blob(1, b"manifest");
    let mut pin =
        CorpusPin::begin(&manifest, vec![entry("a.png"), entry("b.png")]).unwrap();
    assert_eq!(pin.next_path().unwrap(), Some("a.png"));
    pin.add_measured_fixture(blob(2, b"first"), Some((10, 10)))
        .unwrap();
    assert_eq!(pin.next_path().unwrap(), Some("b.png"));
    pin.add_measured_fixture(blob(3, b"second"), Some((10, 10)))
        .unwrap();
    assert_eq!(pin.next_path().unwrap(), None);
    let detector = blob(4, b"detector");
    let recognizer = blob(5, b"recognizer");
    pin.add_models(&detector, &recognizer).unwrap();
    let enrolled = blob(6, &encoded_models("alice", &[("face", unit_embedding(0))]));
    pin.add_enrolled(&enrolled, &is_unit).unwrap();
    let corpus = pin.complete(detector, recognizer, Some(enrolled));
    assert_eq!(corpus.fixtures.len(), 2);
    assert_eq!(corpus.fixtures[1].index, 1);
    assert_eq!(corpus.fixtures[1].encoded, b"second");
    assert_eq!(corpus.detector_digest, digest_hex(b"detector"));
}

#[test]
fn corpora_refuse_duplicates_and_oversize() {
    let begin = |paths: &[&str]| {
        CorpusPin::begin(
            &blob(1, b"manifest"),
            paths.iter().map(|path| entry(path)).collect(),
        )
    };
    assert_eq!(
        begin(&[]).err(),
        Some(CorpusError::ManifestEntryLimit)
    );
    let mut twice = begin(&["a.png", "a.png"]).unwrap();
    twice
        .add_measured_fixture(blob(2, b"first"), Some((1, 1)))
        .unwrap();
    assert_eq!(twice.next_path(), Err(CorpusError::DuplicateFixturePath));
    let outside = begin(&["../a.png"]).unwrap();
    assert_eq!(outside.next_path(), Err(CorpusError::UnsafeRelativePath));
    let mut same = begin(&["a.png", "b.png"]).unwrap();
    same.add_measured_fixture(blob(2, b"first"), Some((1, 1)))
        .unwrap();
    assert_eq!(
        same.add_measured_fixture(blob(3, b"first"), Some((1, 1))),
        Err(CorpusError::DuplicateFixtureFileOrContent)
    );
    let mut unreadable = begin(&["a.png"]).unwrap();
    assert_eq!(
        unreadable.add_measured_fixture(blob(2, b"first"), None),
        Err(CorpusError::UnreadableImage)
    );
    let mut huge = begin(&["a.png"]).unwrap();
    assert_eq!(
        huge.add_measured_fixture(blob(2, b"first"), Some((4000, 3000))),
        Err(CorpusError::PixelLimit)
    );
    let mut models = begin(&["a.png"]).unwrap();
    models
        .add_measured_fixture(blob(2, b"first"), Some((1, 1)))
        .unwrap();
    assert_eq!(
        models.add_models(&blob(4, b"one"), &blob(5, b"one")),
        Err(CorpusError::DuplicateOnnxModels)
    );
    let mut alias = begin(&["a.png"]).unwrap();
    alias
        .add_measured_fixture(blob(2, b"first"), Some((1, 1)))
        .unwrap();
    assert_eq!(
        alias.add_models(&blob(2, b"one"), &blob(5, b"two")),
        Err(CorpusError::InputFileAlias)
    );
    assert_eq!(validate_pixels(4000, 2000), Ok(()));
    assert_eq!(validate_pixels(4000, 2001), Err(CorpusError::PixelLimit));
    assert_eq!(
        check_dimensions(None),
        Err(CorpusError::UnreadableImage)
    );
    assert_eq!(check_face_count(16), Ok(()));
    assert_eq!(check_face_count(17), Err(CorpusError::FaceLimit));
}

fn corpus() -> PinnedCorpus {
    PinnedCorpus {
        detector_digest: digest_hex(b"detector"),
        detector_model: b"detector".to_vec(),
        recognizer_digest: digest_hex(b"recognizer"),
        recognizer_model: b"recognizer".to_vec(),
        enrolled_model: None,
        fixtures: vec![PinnedFixture {
            index: 0,
            class: FixtureClass::Positive,
            digest: digest_hex(b"fixture"),
            encoded: b"fixture".to_vec(),
        }],
    }
}

#[test]
fn exact_corpus_digest_detects_any_payload_change() {
    let mut corpus = corpus();
    let expected = corpus_digest(&corpus);
    assert!(verify_corpus_digest(&expected, &expected));
    assert!(!verify_corpus_digest(&expected, &"f".repeat(64)));
    corpus.fixtures[0].encoded[0] ^= 1;
    assert_ne!(corpus_digest(&corpus), expected);
}

#[test]
fn enrolled_model_allocations_and_error_owner_are_zeroizable() {
    let mut embedding = vec![0.0_f32; 512];
    embedding[0] = 1.0;
    let encoded = bincode::serialize(&(
        "private-user",
        vec![("private-label", 1_u64, embedding)],
    ))
    .unwrap();
    let mut secure = parse_and_validate_enrolled_model(&encoded, &is_unit).unwrap();
    assert_eq!(secure.username, "private-user");
    assert_eq!(secure.labels, ["private-label"]);
    assert_eq!(secure.flat_embeddings.len(), 512);
    secure.zeroize();
    assert!(secure.username.is_empty());
    assert!(secure.labels.is_empty());
    assert!(secure.flat_embeddings.is_empty());

    let mut corpus = PinnedCorpus {
        detector_digest: "d".repeat(64),
        detector_model: b"detector".to_vec(),
        recognizer_digest: "r".repeat(64),
        recognizer_model: b"recognizer".to_vec(),
        enrolled_model: Some(vec![0xff; 16]),
        fixtures: Vec::new(),
    };
    assert!(parse_and_validate_enrolled_model(
        corpus.enrolled_model.as_ref().unwrap(),
        &is_unit
    )
    .is_err());
    corpus.zeroize();
    assert!(corpus.detector_model.is_empty());
    assert!(corpus.recognizer_model.is_empty());
    assert_eq!(corpus.enrolled_model, None);
    assert!(corpus.detector_digest.is_empty());
}

#[test]
fn oversized_image_is_rejected_from_header_before_decode() {
    let mut bmp = vec![0u8; 54];
    bmp[0..2].copy_from_slice(b"BM");
    bmp[2..6].copy_from_slice(&(54u32).to_le_bytes());
    bmp[10..14].copy_from_slice(&(54u32).to_le_bytes());
    bmp[14..18].copy_from_slice(&(40u32).to_le_bytes());
    bmp[18..22].copy_from_slice(&(10_000i32).to_le_bytes());
    bmp[22..26].copy_from_slice(&(10_000i32).to_le_bytes());
    bmp[26..28].copy_from_slice(&(1u16).to_le_bytes());
    bmp[28..30].copy_from_slice(&(24u16).to_le_bytes());
    assert!(inspect_image_dimensions(&bmp).is_err());
}

#[test]
fn fixtures_decode_to_bgr() {
    let mut png = Vec::new();
    image::codecs::png::PngEncoder::new(&mut png)
        .write_image(
            &[1, 2, 3, 4, 5, 6],
            2,
            1,
            image::ExtendedColorType::Rgb8,
        )
        .unwrap();
    assert_eq!(inspect_image_dimensions(&png), Ok((2, 1)));
    let frame = decode_fixture(&png).unwrap();
    assert_eq!((frame.width, frame.height), (2, 1));
    assert_eq!(frame.data, [3, 2, 1, 6, 5, 4]);
    assert_eq!(
        decode_fixture(b"no image").unwrap_err(),
        CorpusError::UnreadableImage
    );
    assert_eq!(
        frame_of_decoded(
            Some((3, 1)),
            Some(RgbImage {
                width: 2,
                height: 1,
                data: vec![0; 6],
            })
        )
        .unwrap_err(),
        CorpusError::DimensionMismatch
    );
}

#[test]
fn fixtures_of_other_samples_decode_to_bgr() {
    let mut gray = Vec::new();
    image::codecs::png::PngEncoder::new(&mut gray)
        .write_image(&[7, 9], 2, 1, image::ExtendedColorType::L8)
        .unwrap();
    assert_eq!(decode_fixture(&gray).unwrap().data, [7, 7, 7, 9, 9, 9]);
    let wide: Vec<u8> = [0x0101_u16, 0x0202, 0xffff]
        .iter()
        .flat_map(|sample| sample.to_ne_bytes())
        .collect();
    let mut png = Vec::new();
    image::codecs::png::PngEncoder::new(&mut png)
        .write_image(&wide, 1, 1, image::ExtendedColorType::Rgb16)
        .unwrap();
    assert_eq!(decode_fixture(&png).unwrap().data, [255, 2, 1]);
}

#[test]
fn decoded_dynamic_image_backing_is_explicitly_zeroizable() {
    let mut guarded = RgbImage {
        width: 1,
        height: 1,
        data: vec![1, 2, 3],
    };
    guarded.zeroize();
    assert_eq!(guarded.data, [0, 0, 0]);
}

#[test]
fn inputs_and_fixtures_are_zeroizable() {
    let mut input = blob(7, b"private");
    input.zeroize();
    assert!(input.bytes.is_empty());
    assert!(input.digest.is_empty());
    assert_eq!(input.identity.inode, 7);
    let mut pinned = corpus();
    pinned.fixtures[0].zeroize();
    assert!(pinned.fixtures[0].encoded.is_empty());
    assert!(pinned.fixtures[0].digest.is_empty());
    pinned.zeroize();
    assert!(pinned.fixtures.is_empty());
}

fn encoded_text(output: &mut Vec<u8>, text: &str) {
    output.extend_from_slice(&(text.len() as u64).to_le_bytes());
    output.extend_from_slice(text.as_bytes());
}

fn encoded_models(username: &str, models: &[(&str, Vec<u32>)]) -> Vec<u8> {
    let mut output = Vec::new();
    encoded_text(&mut output, username);
    output.extend_from_slice(&(models.len() as u64).to_le_bytes());
    for (label, embedding) in models {
        encoded_text(&mut output, label);
        output.extend_from_slice(&1u64.to_le_bytes());
        output.extend_from_slice(&(embedding.len() as u64).to_le_bytes());
        for bits in embedding {
            output.extend_from_slice(&bits.to_le_bytes());
        }
    }
    output
}

#[test]
fn normalized_enrolled_models_are_required() {
    assert!(validate_normalized_embedding(&unit_embedding(0), &is_unit).is_ok());
    assert!(
        validate_normalized_embedding(&vec![0.0_f32.to_bits(); FACE_EMBEDDING_DIM], &is_unit)
            .is_err()
    );
}

#[test]
fn enrolled_models_are_read_exactly() {
    let bytes = encoded_models(
        "alice",
        &[("left", unit_embedding(0)), ("right", unit_embedding(1))],
    );
    let parsed = parse_and_validate_enrolled_model(&bytes, &is_unit).unwrap();
    assert_eq!(parsed.username, "alice");
    assert_eq!(parsed.labels, ["left", "right"]);
    assert_eq!(parsed.count, 2);
    assert_eq!(parsed.flat_embeddings.len(), 2 * FACE_EMBEDDING_DIM);
    assert_eq!(parsed.flat_embeddings[FACE_EMBEDDING_DIM + 1], 1.0_f32.to_bits());

    let parse = |bytes: &[u8]| parse_and_validate_enrolled_model(bytes, &is_unit).unwrap_err();
    assert_eq!(parse(&bytes[..bytes.len() - 1]), ModelError::Truncated);
    let mut trailing = bytes.clone();
    trailing.push(0);
    assert_eq!(parse(&trailing), ModelError::TrailingData);
    assert_eq!(parse(&encoded_models("alice", &[])), ModelError::Empty);
    assert_eq!(
        parse(&encoded_models("alice", &[("x", vec![0; 3])])),
        ModelError::EmbeddingLength
    );
    assert_eq!(
        parse(&encoded_models("alice", &[("x", vec![0; FACE_EMBEDDING_DIM])])),
        ModelError::NotNormalized
    );
    let mut infinite = unit_embedding(0);
    infinite[3] = f32::INFINITY.to_bits();
    assert_eq!(
        parse(&encoded_models("alice", &[("x", infinite)])),
        ModelError::InvalidEmbedding
    );
    assert_eq!(parse(&u64::MAX.to_le_bytes()), ModelError::CollectionLimit);
    let mut no_text = 1u64.to_le_bytes().to_vec();
    no_text.push(0xff);
    assert_eq!(parse(&no_text), ModelError::NonUtf8);
}

#[test]
fn malicious_wire_collection_length_is_rejected_before_allocation() {
    let malicious = u64::MAX.to_le_bytes();
    let mut reader = ModelReader::new(&malicious);
    assert!(reader.bounded_len(4 << 20).is_err());
}

fn artifact(name: &str, mode: u32) -> CacheArtifact {
    CacheArtifact {
        relative_name: name.to_string(),
        size: 5,
        sha256: digest_hex(b"cache"),
        device: 1,
        inode: 9,
        mode,
        mtime: 1,
        mtime_nsec: 2,
        ctime: 3,
        ctime_nsec: 4,
    }
}

fn file_metadata() -> InputMetadata {
    InputMetadata {
        stamp: ArtifactStamp {
            inode: 9,
            ..stamp(5)
        },
        is_file: true,
        uid: 1000,
        mode: 0o100_600,
    }
}

#[test]
fn caches_are_walked_and_listed() {
    let mut walk = CacheWalk::begin();
    assert_eq!(walk.step, WalkStep::List);
    walk.listed(words(&["compiled.mxr", "sub"]));
    assert_eq!(walk.step, WalkStep::Inspect);
    assert_eq!(walk.current_name(), "compiled.mxr");
    walk.inspected(EntryKind::Regular);
    assert_eq!(walk.step, WalkStep::OpenFile);
    walk.file_opened(file_metadata(), 1000);
    assert_eq!(walk.step, WalkStep::Digest);
    walk.digested(digest_hex(b"cache"), 5, file_metadata().stamp);
    assert_eq!(walk.step, WalkStep::Inspect);
    walk.inspected(EntryKind::Directory);
    assert_eq!(walk.step, WalkStep::EnterDirectory);
    walk.entered(true, 1000, 1000, 0o40_700);
    assert_eq!(walk.step, WalkStep::List);
    walk.listed(Vec::new());
    while walk.step == WalkStep::Leave {
        walk.left();
    }
    assert_eq!(walk.step, WalkStep::Finished);
    let inventory = complete_inventory(&walk.artifacts).unwrap();
    assert_eq!(inventory.len(), 1);
    assert_eq!(inventory[0].relative_name, "compiled.mxr");
    assert_eq!(inventory[0].sha256, digest_hex(b"cache"));
}

#[test]
fn finished_walks_list_every_file_once() {
    let names = |path: &str| match path {
        "" => words(&[".exclusive.lock", "a.mxr", "deep", "provenance.json", "z.mxr"]),
        "deep" => words(&["b.mxr", "deeper", "provenance.json"]),
        "deep/deeper" => words(&["c.mxr"]),
        _ => panic!("not a directory"),
    };
    let mut walk = CacheWalk::begin();
    loop {
        match walk.step {
            WalkStep::List => {
                let listed = names(&walk.entering);
                walk.listed(listed);
            }
            WalkStep::Inspect => {
                let kind = match walk.current_path().as_str() {
                    "deep" | "deep/deeper" => EntryKind::Directory,
                    _ => EntryKind::Regular,
                };
                walk.inspected(kind);
            }
            WalkStep::EnterDirectory => walk.entered(true, 1000, 1000, 0o40_700),
            WalkStep::OpenFile => walk.file_opened(file_metadata(), 1000),
            WalkStep::Digest => walk.digested(digest_hex(b"cache"), 5, file_metadata().stamp),
            WalkStep::Leave => walk.left(),
            WalkStep::Finished => break,
            WalkStep::Failed(error) => panic!("unexpected {error:?}"),
        }
    }
    let listed: Vec<&str> = walk
        .artifacts
        .iter()
        .map(|artifact| artifact.relative_name.as_str())
        .collect();
    assert_eq!(
        listed,
        [
            "a.mxr",
            "deep/b.mxr",
            "deep/deeper/c.mxr",
            "deep/provenance.json",
            "z.mxr"
        ]
    );
}

#[test]
fn walks_stop_at_what_is_not_private() {
    let mut walk = CacheWalk::begin();
    walk.listed(words(&["odd"]));
    walk.inspected(EntryKind::Other);
    assert_eq!(walk.step, WalkStep::Failed(CacheError::NonRegularArtifact));
    let mut open = CacheWalk::begin();
    open.listed(words(&["shared"]));
    open.inspected(EntryKind::Regular);
    open.file_opened(
        InputMetadata {
            mode: 0o100_644,
            ..file_metadata()
        },
        1000,
    );
    assert_eq!(open.step, WalkStep::Failed(CacheError::ArtifactNotPrivate));
    let mut changing = CacheWalk::begin();
    changing.listed(words(&["a.mxr"]));
    changing.inspected(EntryKind::Regular);
    changing.file_opened(file_metadata(), 1000);
    changing.digested(digest_hex(b"cache"), 4, file_metadata().stamp);
    assert_eq!(
        changing.step,
        WalkStep::Failed(CacheError::ChangedDuringHash)
    );
    let mut directory = CacheWalk::begin();
    directory.listed(words(&["sub"]));
    directory.inspected(EntryKind::Directory);
    directory.entered(true, 1000, 1000, 0o40_755);
    assert_eq!(
        directory.step,
        WalkStep::Failed(CacheError::DirectoryNotPrivate)
    );
    assert_eq!(
        directory_names(&words(&["b", ".", "a", ".."])).unwrap(),
        words(&["a", "b"])
    );
    assert_eq!(
        complete_inventory(&vec![artifact("notes.txt", 0o600)]).unwrap_err(),
        CacheError::MxrInventoryEmpty
    );
}

#[test]
fn cache_inventory_rejects_mutation_and_new_artifact() {
    let expected = vec![artifact("compiled.mxr", 0o600)];
    assert_eq!(verify_cache_inventory(&expected, &expected), Ok(()));
    let changed = vec![CacheArtifact {
        sha256: digest_hex(b"changed"),
        ..artifact("compiled.mxr", 0o600)
    }];
    assert_eq!(
        verify_cache_inventory(&changed, &expected),
        Err(CacheError::InventoryChanged)
    );
    let more = vec![
        artifact("compiled.mxr", 0o600),
        artifact("new.mxr", 0o600),
    ];
    assert_eq!(
        verify_cache_inventory(&more, &expected),
        Err(CacheError::InventoryChanged)
    );
}

#[test]
fn generated_cache_artifacts_become_read_only_for_measurement() {
    let generated = vec![artifact("compiled.mxr", 0o600)];
    let readonly = vec![CacheArtifact {
        ctime: 9,
        ..artifact("compiled.mxr", 0o400)
    }];
    assert_eq!(check_read_only(&generated, &readonly), Ok(()));
    assert_eq!(
        check_read_only(&generated, &generated),
        Err(CacheError::ReadOnlyMismatch)
    );
    assert_eq!(
        check_read_only(&generated, &Vec::new()),
        Err(CacheError::ReadOnlyInventoryChanged)
    );
    let held = ArtifactStamp {
        device: 1,
        inode: 9,
        length: 5,
        mtime: 1,
        mtime_nsec: 2,
        ctime: 3,
        ctime_nsec: 4,
    };
    assert_eq!(check_before_read_only(&held, &generated[0]), Ok(()));
    assert_eq!(
        check_before_read_only(&stamp(4), &generated[0]),
        Err(CacheError::ChangedBeforeReadOnly)
    );
}

#[test]
fn experiments_stay_out_of_the_repository() {
    assert_eq!(
        experiment_root_names(b"/srv/experiment").unwrap(),
        words(&["srv", "experiment"])
    );
    assert_eq!(
        experiment_root_names(b"srv"),
        Err(LayoutError::RootMustBeAbsolute)
    );
    assert_eq!(
        experiment_root_names(b"/srv/../etc"),
        Err(LayoutError::UnsafeRelativePath)
    );
    assert_eq!(check_experiment_root(true, b"/srv/x", b"/home/howy"), Ok(()));
    assert_eq!(
        check_experiment_root(true, b"/home/howy/x", b"/home/howy"),
        Err(LayoutError::RepositoryPathRejected)
    );
    assert_eq!(
        check_experiment_root(false, b"/srv/x", b"/home/howy"),
        Err(LayoutError::InsecureRoot)
    );
    assert_eq!(
        output_place(b"out/result.json").unwrap(),
        (words(&["out"]), b"result.json".to_vec())
    );
    assert_eq!(run_id(&[0x0a, 0xff]), "0aff");
    assert_eq!(run_name(&[0xab, 0x01]), "run-ab01");
    assert_eq!(temporary_name(&[0xff]), ".tmp-ff");
    assert_eq!(pair_directory(0), "pair-00");
    assert_eq!(pair_directory(12), "pair-12");
    assert_eq!(check_cleanup_depth(20), Ok(()));
    assert_eq!(check_cleanup_depth(21), Err(LayoutError::CleanupDepthLimit));
}
