//! What workers are asked, what they answer, and how the answers are judged.
use howy_daemon::digest::digest_hex;
use howy_daemon::fp16_args::{Gates, ParentConfig};
use howy_daemon::fp16_assignment::{assignment_better, global_assignment_matrix, Assignment};
use howy_daemon::fp16_comparison::{
    bbox_overlap, compare_outputs, embedding_cosine, global_face_assignment, BoxOverlap,
    Comparison, FaceTools, PairOutputs,
};
use howy_daemon::fp16_corpus::{
    corpus_digest, ArtifactStamp, FixtureClass, InputMetadata, PinnedCorpus,
};
use howy_daemon::fp16_environment::{reviewed_environment, Precision, WorkerPhase};
use howy_daemon::fp16_metrics::{distribution, Averages, Distribution};
use howy_daemon::fp16_model::ModelError;
use howy_daemon::fp16_placement::{
    parse_profile, parse_profile_json, placement_allowed, placement_facts_comparable,
    placement_of_events, profile_name, profile_size, public_placement, validate_placement_pair,
    PlacementError, PlacementFacts, PlacementMode, ProfileEvent,
};
use howy_daemon::fp16_profile::{event_of, events_of, JsonLeaf, JsonPart};
use howy_daemon::fp16_protocol::{
    check_worker_exit, check_worker_invocation, check_worker_request, decode_capability,
    decode_frame, encode_capability, encode_frame, frame_length, launch_worker, success_finalize, wait_until,
    worker_arguments, Direction, FinalStage, FinalStep, GroupSight, GroupSignal, LaunchEvent,
    LaunchStep, ProtocolError, Transfer, TransferEvent, TransferStep, WaitStep,
    CAPABILITY_BYTES, PROTOCOL_VERSION,
};
use howy_daemon::fp16_provenance::{
    is_provider_stack_library, provenance_matches, provider_library_paths, provider_stack_of,
    runtime_library, runtime_library_is_trusted, runtime_library_path_is_trusted,
    validate_provider_stack, verify_output_provenance, verify_provider_stack_match, Provenance,
    ProviderStackProvenance, RuntimeLibraryDigest, StackError, ORT_CRATE_VERSION,
};
use howy_daemon::fp16_records::{
    face_record as measured_face, scrub_worker_output, validate_record_indices,
    validate_worker_output, FaceRecord, ImageRecord, RecordError, WorkerOutput,
};
use howy_daemon::fp16_report::{
    all_required_gates_passed, build_report, gate_report, metric_report,
    public_pair_placement, timing_report, Comparator, MetricReport, TimeTools,
};
use howy_daemon::fp16_run::{launched_phase, ArmTask, ParentRun, RunReply, RunStep};
use howy_daemon::fp16_wire::{WireError, WirePart};
use howy_daemon::fp16_worker::{
    check_expectation, check_request, profile_base, worker_provenance, worker_request,
    ProfiledModel, WorkerError, WorkerRequest, WorkerRun, WorkerStep,
};

const FACE_EMBEDDING_DIM: usize = 512;
const MIGRAPHX: &str = "MIGraphXExecutionProvider";
const CPU: &str = "CPUExecutionProvider";

fn event(name: &str, provider: &str, operation: &str, index: &str) -> String {
    format!(
        "{{\"cat\":\"Node\",\"ph\":\"X\",\"dur\":1,\"name\":\"{name}\",\"args\":{{\
         \"provider\":\"{provider}\",\"op_name\":\"{operation}\",\"node_index\":\"{index}\"}}}}"
    )
}

fn profile(events: &[String]) -> Vec<u8> {
    format!("[{}]", events.join(",")).into_bytes()
}

fn sanitized_profile() -> Vec<u8> {
    profile(&[
        "{\"cat\":\"Session\",\"ph\":\"X\",\"dur\":9,\"name\":\"model_loading\"}".to_string(),
        event("detector_kernel_time", MIGRAPHX, "Conv", "0"),
        event("recognizer_kernel_time", MIGRAPHX, "Gemm", "1"),
        event("recognizer_kernel_time", MIGRAPHX, "Gemm", "1"),
        event("shape_kernel_time", CPU, "Shape", "2"),
    ])
}

fn only(provider: &str) -> PlacementFacts {
    parse_profile_json(&profile(&[event("a", provider, "Conv", "0")])).unwrap()
}

fn plus(left: u64, right: u64) -> u64 {
    (f64::from_bits(left) + f64::from_bits(right)).to_bits()
}

fn bbox_iou(left: [i32; 4], right: [i32; 4]) -> u64 {
    let overlap = bbox_overlap(left, right);
    let intersection = f64::from(overlap.width) * f64::from(overlap.height);
    let union = f64::from(overlap.left_area) + f64::from(overlap.right_area) - intersection;
    let iou = if union > 0.0 {
        intersection / union
    } else {
        0.0
    };
    iou.to_bits()
}

fn is_unit(values: &[u32]) -> bool {
    let norm = values
        .iter()
        .map(|bits| f64::from(f32::from_bits(*bits)).powi(2))
        .sum::<f64>()
        .sqrt();
    (norm - 1.0).abs() <= 1e-3
}

fn unit_embedding(index: usize) -> Vec<u32> {
    let mut value = vec![0.0_f32.to_bits(); FACE_EMBEDDING_DIM];
    value[index] = 1.0_f32.to_bits();
    value
}

fn face_record(bbox: [i32; 4]) -> FaceRecord {
    FaceRecord {
        bbox,
        landmarks: vec![0.0_f32.to_bits(); 10],
        detector_score: 0.9_f32.to_bits(),
        embedding: unit_embedding(0),
        enrolled_score: None,
        decision: None,
    }
}

fn image_record(index: usize, faces: Vec<FaceRecord>) -> ImageRecord {
    ImageRecord {
        index,
        class: FixtureClass::Positive,
        decode_ms: 0.0_f64.to_bits(),
        detector_pipeline_ms: 0.0_f64.to_bits(),
        recognizer_pipeline_ms: 0.0_f64.to_bits(),
        enrolled_matching_ms: 0.0_f64.to_bits(),
        complete_fixture_ms: 0.0_f64.to_bits(),
        faces,
    }
}

#[test]
fn sanitized_profile_fixture_reports_complete_event_facts() {
    let facts = parse_profile_json(&sanitized_profile()).unwrap();
    assert_eq!(facts.migraphx_events, 3);
    assert_eq!(facts.cpu_events, 1);
    assert_eq!(facts.mode, PlacementMode::Mixed);
    let invocations = |identity: &str| {
        let (found, place) = facts.identities.find(identity);
        assert!(found);
        facts.nodes[place].invocation_count
    };
    assert_eq!(invocations("0|detector_kernel_time|Conv"), 1);
    assert_eq!(invocations("1|recognizer_kernel_time|Gemm"), 2);
}

#[test]
fn profile_parser_rejects_unknown_and_malformed_placement() {
    let unknown = br#"[{"cat":"Node","ph":"X","dur":1,"name":"x","args":{"provider":"UnknownEP","op_name":"Test","node_index":"0"}}]"#;
    assert_eq!(
        parse_profile_json(unknown).unwrap().mode,
        PlacementMode::Invalid
    );
    assert!(parse_profile_json(br#"[{"cat":"Node"}]"#).is_err());
}

fn leaf(text: Option<&str>, whole: Option<u64>, is_number: bool) -> JsonLeaf {
    JsonLeaf {
        text: text.map(str::to_owned),
        whole,
        is_number,
    }
}

#[test]
fn events_are_read_by_the_names_of_their_members() {
    let part = |leaf: JsonLeaf| JsonPart {
        leaf,
        members: None,
    };
    let arguments = JsonPart {
        leaf: leaf(None, None, false),
        members: Some(vec![
            ("op_name".to_string(), leaf(Some("Conv"), None, false)),
            ("node_index".to_string(), leaf(None, Some(4), true)),
            ("provider".to_string(), leaf(Some(CPU), None, false)),
        ]),
    };
    let read = event_of(&Some(vec![
        ("args".to_string(), arguments),
        ("cat".to_string(), part(leaf(Some("Node"), None, false))),
        ("dur".to_string(), part(leaf(None, None, true))),
        ("name".to_string(), part(leaf(None, Some(7), true))),
    ]));
    assert_eq!(read.category.as_deref(), Some("Node"));
    assert_eq!(read.phase, None);
    assert!(read.has_duration);
    assert_eq!(read.name, None);
    assert_eq!(read.provider.as_deref(), Some(CPU));
    assert_eq!(read.operation.as_deref(), Some("Conv"));
    assert_eq!(read.index_number, Some(4));
    assert_eq!(read.index_text, None);
    assert_eq!(event_of(&None).category, None);
    assert!(events_of(&None).is_none());
    assert!(parse_profile_json(b"[1,\"x\",{\"cat\":{\"a\":[]}}]").is_ok());
}

#[test]
fn capabilities_are_decoded_as_they_were_encoded() {
    let capability = [0xa5; CAPABILITY_BYTES];
    let text = encode_capability(&capability);
    assert_eq!(text, "a5".repeat(CAPABILITY_BYTES));
    assert_eq!(decode_capability(&text).unwrap(), capability);
}

#[test]
fn every_placement_error_can_come() {
    let node = |change: &dyn Fn(&mut ProfileEvent)| {
        let mut event = ProfileEvent {
            category: Some("Node".to_string()),
            phase: Some("X".to_string()),
            has_duration: true,
            name: Some("x".to_string()),
            provider: Some(CPU.to_string()),
            operation: Some("Conv".to_string()),
            index_number: Some(3),
            index_text: None,
        };
        change(&mut event);
        placement_of_events(&Some(vec![event]))
    };
    assert!(node(&|_| ()).is_ok());
    for (change, error) in [
        (
            (&|event: &mut ProfileEvent| event.has_duration = false)
                as &dyn Fn(&mut ProfileEvent),
            PlacementError::NodeEventIncomplete,
        ),
        (
            &|event| event.provider = None,
            PlacementError::ProviderMissing,
        ),
        (&|event| event.name = None, PlacementError::NodeIdentityMissing),
        (
            &|event| event.operation = None,
            PlacementError::OperationIdentityMissing,
        ),
        (
            &|event| event.name = Some("x".repeat(5000)),
            PlacementError::IdentityStringLimit,
        ),
        (
            &|event| event.index_number = None,
            PlacementError::NodeIndexMissing,
        ),
        (
            &|event| {
                event.index_number = None;
                event.index_text = Some("x".to_string());
            },
            PlacementError::NodeIndexInvalid,
        ),
    ] {
        assert_eq!(node(change).unwrap_err(), error);
    }
    assert_eq!(
        placement_of_events(&None).unwrap_err(),
        PlacementError::JsonInvalid
    );
    assert_eq!(
        parse_profile_json(b"not json").unwrap_err(),
        PlacementError::JsonInvalid
    );
    assert_eq!(
        parse_profile_json(&profile(&[
            event("a", MIGRAPHX, "Conv", "0"),
            event("a", CPU, "Conv", "0"),
        ]))
        .unwrap_err(),
        PlacementError::IdentityProviderChanged
    );
    assert_eq!(
        profile_name(b"/proc/self/fd/5/profile.json").unwrap(),
        b"profile.json"
    );
    assert_eq!(
        profile_name(b"/tmp/profile.json"),
        Err(PlacementError::PathEscaped)
    );
    assert_eq!(profile_size(false, 4), Err(PlacementError::SizeLimit));
    assert_eq!(
        parse_profile(3, b"[]").unwrap_err(),
        PlacementError::SizeChanged
    );
}

#[test]
fn mixed_placement_requires_explicit_policy() {
    let facts = parse_profile_json(&sanitized_profile()).unwrap();
    assert!(!placement_allowed(&facts, false));
    assert!(placement_allowed(&facts, true));
    let invalid = parse_profile_json(
        br#"[{"cat":"Node","ph":"X","dur":1,"name":"x","args":{"provider":"UnknownEP","op_name":"Test","node_index":"0"}}]"#,
    )
    .unwrap();
    assert!(!placement_allowed(&invalid, true));
    assert_eq!(
        validate_placement_pair(false, &facts, &facts, &facts, &facts),
        Err(PlacementError::PolicyRejected)
    );
    assert_eq!(
        validate_placement_pair(true, &facts, &facts, &facts, &facts),
        Ok(())
    );
    assert_eq!(
        validate_placement_pair(true, &facts, &facts, &only(MIGRAPHX), &facts),
        Err(PlacementError::NotComparable)
    );
}

#[test]
fn provider_swap_fails_even_with_equal_aggregate_counts() {
    let left = parse_profile_json(
        br#"[{"cat":"Node","ph":"X","dur":1,"name":"a","args":{"provider":"MIGraphXExecutionProvider","op_name":"Conv","node_index":"0"}},{"cat":"Node","ph":"X","dur":1,"name":"b","args":{"provider":"CPUExecutionProvider","op_name":"Shape","node_index":"1"}}]"#,
    )
    .unwrap();
    let right = parse_profile_json(
        br#"[{"cat":"Node","ph":"X","dur":1,"name":"a","args":{"provider":"CPUExecutionProvider","op_name":"Conv","node_index":"0"}},{"cat":"Node","ph":"X","dur":1,"name":"b","args":{"provider":"MIGraphXExecutionProvider","op_name":"Shape","node_index":"1"}}]"#,
    )
    .unwrap();
    assert_eq!(left.migraphx_events, right.migraphx_events);
    assert_eq!(left.cpu_events, right.cpu_events);
    assert!(!placement_facts_comparable(&left, &right));
    assert!(placement_facts_comparable(&left, &left));
}

#[test]
fn public_placement_counts_without_identities() {
    let public = public_placement(&parse_profile_json(&sanitized_profile()).unwrap());
    assert_eq!(public.mode, PlacementMode::Mixed);
    assert_eq!(public.migraphx_executed_events, 3);
    assert_eq!(public.cpu_executed_events, 1);
    assert_eq!(public.unknown_executed_events, 0);
    assert_eq!(public.provider_set, [CPU, MIGRAPHX]);
}

fn matrix(rows: &[&[f64]]) -> Vec<Vec<u64>> {
    rows.iter()
        .map(|row| row.iter().map(|value| value.to_bits()).collect())
        .collect()
}

#[test]
fn global_assignment_beats_greedy_crossing_and_breaks_ties() {
    let crossing = matrix(&[&[0.9, 0.8], &[0.85, 0.1]]);
    let assignment = global_assignment_matrix(&crossing, 0.05_f64.to_bits(), &plus);
    assert_eq!(
        assignment
            .iter()
            .map(|found| found.right)
            .collect::<Vec<_>>(),
        [1, 0]
    );
    let ties = matrix(&[&[1.0, 1.0], &[1.0, 1.0]]);
    assert_eq!(
        global_assignment_matrix(&ties, 0.5_f64.to_bits(), &plus)[0].right,
        0
    );
}

#[test]
fn global_assignment_respects_iou_floor_and_multiple_faces() {
    let matrix = matrix(&[&[0.99, 0.2, 0.1], &[0.1, 0.98, 0.2], &[0.2, 0.1, 0.4]]);
    let assignment = global_assignment_matrix(&matrix, 0.95_f64.to_bits(), &plus);
    assert_eq!(assignment.len(), 2);
    assert_eq!(assignment[1].iou, 0.98_f64.to_bits());
}

#[test]
fn no_other_assignment_scores_more() {
    let scores = [[0.7, 0.6, 0.1], [0.65, 0.2, 0.3], [0.1, 0.55, 0.5]];
    let rows: Vec<&[f64]> = scores.iter().map(|row| row.as_slice()).collect();
    let found = global_assignment_matrix(&matrix(&rows), 0.05_f64.to_bits(), &plus);
    let score: f64 = found.iter().map(|one| f64::from_bits(one.iou)).sum();
    for order in [[0, 1, 2], [0, 2, 1], [1, 0, 2], [1, 2, 0], [2, 0, 1], [2, 1, 0]] {
        let other: f64 = (0..3).map(|row| scores[row][order[row]]).sum();
        assert!(other <= score + 1.0e-12);
    }
    assert!(found.iter().all(|one| {
        f64::from_bits(one.iou) == scores[one.left][one.right]
    }));
}

#[test]
fn higher_scores_win_then_more_matches_then_earlier_choices() {
    let made = |score: f64, count: usize, choices: Vec<Option<usize>>| Assignment {
        score: score.to_bits(),
        count,
        choices,
    };
    assert!(assignment_better(
        &made(1.0, 1, vec![Some(0)]),
        &made(0.5, 2, vec![Some(0)])
    ));
    assert!(assignment_better(
        &made(1.0, 2, vec![Some(1)]),
        &made(1.0, 1, vec![Some(0)])
    ));
    assert!(assignment_better(
        &made(1.0, 1, vec![Some(0)]),
        &made(1.0, 1, vec![Some(1)])
    ));
}

#[test]
fn face_assignment_fixture_helper_is_deterministic() {
    let faces = || vec![face_record([0, 0, 10, 10]), face_record([20, 0, 30, 10])];
    assert_eq!(
        global_face_assignment(&faces(), &faces(), 0.95_f64.to_bits(), &plus, &bbox_iou).len(),
        2
    );
    assert_eq!(
        bbox_overlap([0, 0, 10, 10], [5, 5, 20, 8]),
        BoxOverlap {
            width: 5,
            height: 3,
            left_area: 100,
            right_area: 45,
        }
    );
}

#[test]
fn worker_record_indices_must_exactly_follow_manifest_order() {
    assert!(validate_record_indices(&vec![image_record(1, Vec::new())]).is_err());
    assert!(validate_record_indices(&vec![
        image_record(0, Vec::new()),
        image_record(1, Vec::new()),
    ])
    .is_ok());
}

fn mean(values: &[u64]) -> u64 {
    let sum = values.iter().map(|bits| f64::from_bits(*bits)).sum::<f64>();
    (sum / values.len() as f64).to_bits()
}

fn middle(left: u64, right: u64) -> u64 {
    ((f64::from_bits(left) + f64::from_bits(right)) / 2.0).to_bits()
}

fn spread(values: &[f64]) -> Distribution {
    distribution(
        &values.iter().map(|value| value.to_bits()).collect(),
        &Averages { mean, middle },
    )
}

fn one(value: f64) -> Distribution {
    spread(&[value])
}

fn none() -> Distribution {
    spread(&[])
}

fn drift(left: u32, right: u32) -> u64 {
    f64::from((f32::from_bits(left) - f32::from_bits(right)).abs()).to_bits()
}

fn rmse(left: &[u32], right: &[u32]) -> u64 {
    let squares = left
        .chunks(2)
        .zip(right.chunks(2))
        .map(|(left, right)| {
            left.iter()
                .zip(right)
                .map(|(left, right)| {
                    f64::from(f32::from_bits(*left) - f32::from_bits(*right)).powi(2)
                })
                .sum::<f64>()
        })
        .sum::<f64>();
    (squares / 5.0).sqrt().to_bits()
}

fn cosine(left: &[u32], right: &[u32]) -> Option<u64> {
    let dot = left
        .iter()
        .zip(right)
        .map(|(left, right)| f64::from(f32::from_bits(*left)) * f64::from(f32::from_bits(*right)))
        .sum::<f64>();
    Some(dot.to_bits())
}

fn compared(
    outputs: &Vec<PairOutputs>,
    decisions_evaluated: bool,
) -> Result<Comparison, RecordError> {
    compare_outputs(
        outputs,
        false,
        &vec![FixtureClass::Positive],
        0.95_f64.to_bits(),
        &FaceTools {
            plus,
            iou: bbox_iou,
            drift,
            rmse,
            unit: is_unit,
            cosine,
        },
        &|| 0,
        decisions_evaluated,
    )
}

#[test]
fn distributions_report_median_range_and_conditional_percentile() {
    let short = spread(&[3.0, 1.0, 2.0]);
    assert_eq!(short.min, 1.0_f64.to_bits());
    assert_eq!(short.mean, 2.0_f64.to_bits());
    assert_eq!(short.median, 2.0_f64.to_bits());
    assert_eq!(short.max, 3.0_f64.to_bits());
    assert_eq!(short.p95, None);
    let long = spread(&(0..20).map(f64::from).collect::<Vec<_>>());
    assert!(long.p95.is_some());
    assert_eq!(long.p95, Some(19.0_f64.to_bits()));
    assert_eq!(long.median, 9.5_f64.to_bits());
    assert_eq!(
        spread(&(0..21).map(f64::from).collect::<Vec<_>>()).p95,
        Some(19.0_f64.to_bits())
    );
    let signed = spread(&[0.0, -0.0, -3.0]);
    assert_eq!(signed.min, (-3.0_f64).to_bits());
    assert_eq!(signed.median, (-0.0_f64).to_bits());
    assert_eq!(signed.max, 0.0_f64.to_bits());
    assert_eq!(none().count, 0);
    assert_eq!(spread(&[3.0, 1.0, 2.0]), spread(&[2.0, 3.0, 1.0]));
    assert_eq!(spread(&[0.0, -0.0]), spread(&[-0.0, 0.0]));
}

#[test]
fn recognizer_and_enrolled_matching_timings_are_separate() {
    let mut arm = output(Precision::Fp32, Vec::new());
    arm.records = vec![ImageRecord {
        index: 0,
        class: FixtureClass::Positive,
        decode_ms: 1.0_f64.to_bits(),
        detector_pipeline_ms: 2.0_f64.to_bits(),
        recognizer_pipeline_ms: 3.0_f64.to_bits(),
        enrolled_matching_ms: 4.0_f64.to_bits(),
        complete_fixture_ms: 10.0_f64.to_bits(),
        faces: Vec::new(),
    }];
    let outputs = vec![PairOutputs {
        fp32: Some(arm),
        fp16: None,
    }];
    let report = timing_report(&outputs, Precision::Fp32, &Averages { mean, middle });
    assert_eq!(report.recognizer_alignment_run_ms.mean, 3.0_f64.to_bits());
    assert_eq!(report.enrolled_matching_ms.mean, 4.0_f64.to_bits());
    assert_eq!(report.image_decode_ms.mean, 1.0_f64.to_bits());
    assert_eq!(
        report.detector_preprocess_run_postprocess_ms.mean,
        2.0_f64.to_bits()
    );
    assert_eq!(report.complete_fixture_ms.mean, 10.0_f64.to_bits());
}

#[test]
fn no_model_decision_gate_is_not_marked_passing() {
    let metrics = MetricReport {
        box_iou: one(1.0),
        detector_score_abs_drift: one(0.0),
        landmark_point_rmse_pixels: one(0.0),
        embedding_cosine: one(1.0),
        enrolled_score_abs_drift: none(),
        matched_faces: 1,
        unmatched_faces: 0,
        threshold_flips: 0,
        decision_testing_evaluated: false,
    };
    let gates = gate_report(Gates::default(), metrics);
    assert_eq!(gates.threshold_flips.passed, None);
    assert_eq!(gates.enrolled_score_drift.passed, None);
    assert!(all_required_gates_passed(&gates));
}

#[test]
fn every_numeric_gate_reports_failure_at_bad_boundary() {
    let bad = MetricReport {
        box_iou: one(0.94),
        detector_score_abs_drift: one(0.02),
        landmark_point_rmse_pixels: one(1.1),
        embedding_cosine: one(0.998),
        enrolled_score_abs_drift: one(0.02),
        matched_faces: 1,
        unmatched_faces: 1,
        threshold_flips: 1,
        decision_testing_evaluated: true,
    };
    let gates = gate_report(Gates::default(), bad);
    assert_eq!(gates.face_iou.passed, Some(false));
    assert_eq!(gates.detector_score_drift.passed, Some(false));
    assert_eq!(gates.landmark_rmse.passed, Some(false));
    assert_eq!(gates.embedding_cosine.passed, Some(false));
    assert_eq!(gates.enrolled_score_drift.passed, Some(false));
    assert_eq!(gates.threshold_flips.passed, Some(false));
    assert_eq!(gates.unmatched_faces.passed, Some(false));
    assert!(!all_required_gates_passed(&gates));
    assert_eq!(gates.face_iou.comparator, Comparator::AtLeast);
    assert_eq!(Comparator::AtLeast.symbol(), ">=");
}

fn config() -> ParentConfig {
    ParentConfig {
        experiment_root: b"/x".to_vec(),
        fixture_dir: b"fixtures".to_vec(),
        manifest: b"manifest".to_vec(),
        detector_model: b"detector".to_vec(),
        recognizer_model: b"recognizer".to_vec(),
        enrolled_model: None,
        result: b"result".to_vec(),
        diagnostics: None,
        threshold: 0.5_f32.to_bits(),
        hsa_override: "11.0.2".into(),
        configured_gpu_target: "gfx-test".into(),
        pairs: 2,
        deadline_secs: 1,
        allow_mixed: false,
        gates: Gates::default(),
    }
}

#[test]
fn reports_say_what_was_compared() {
    let report = |boxes: &[[i32; 4]]| {
        let faces = || boxes.iter().map(|bbox| face_record(*bbox)).collect();
        let mut outputs = pair(faces(), faces());
        outputs.extend(pair(faces(), faces()));
        build_report(
            &config(),
            &vec![FixtureClass::Positive],
            false,
            &outputs,
            &vec![5.0_f64.to_bits(), 7.0_f64.to_bits()],
            &vec![3.0_f64.to_bits()],
            "run-ab",
            &FaceTools {
                plus,
                iou: bbox_iou,
                drift,
                rmse,
                unit: is_unit,
                cosine,
            },
            &|| 0,
            &Averages { mean, middle },
            &TimeTools {
                minus: |left: u64, right: u64| {
                    (f64::from_bits(left) - f64::from_bits(right)).to_bits()
                },
                elapsed: |left: u64, right: u64| ((right - left) as f64).to_bits(),
            },
        )
        .unwrap()
    };
    let found = report(&[[0, 0, 10, 10]]);
    assert_eq!(found.protocol_version, PROTOCOL_VERSION);
    assert_eq!(found.run_id, "run-ab");
    assert_eq!(found.fixture_count, 1);
    assert_eq!(
        found.process_order,
        [
            [Precision::Fp32, Precision::Fp16],
            [Precision::Fp16, Precision::Fp32],
        ]
    );
    assert_eq!(found.pair_count, 2);
    assert_eq!(found.metrics.matched_faces, 2);
    assert_eq!(found.metrics.box_iou, spread(&[1.0, 1.0]));
    assert_eq!(found.cache_generation_process_ms.mean, 6.0_f64.to_bits());
    assert_eq!(
        found.loaded_cache_measurement_process_ms.mean,
        3.0_f64.to_bits()
    );
    assert_eq!(found.paired_complete_fixture_delta_ms, spread(&[0.0, 0.0]));
    assert!(found.all_required_gates_passed);
    assert!(!report(&[]).all_required_gates_passed);
}

fn output(precision: Precision, faces: Vec<FaceRecord>) -> WorkerOutput {
    WorkerOutput {
        protocol_version: PROTOCOL_VERSION,
        capability: vec![7; CAPABILITY_BYTES],
        phase: WorkerPhase::LoadedCacheMeasurement,
        precision,
        registered_preference: "migraphx".to_string(),
        corpus_digest: "0".repeat(64),
        provenance: test_provenance(precision),
        detector_placement: only(MIGRAPHX),
        recognizer_placement: only(MIGRAPHX),
        records: vec![image_record(0, faces)],
    }
}

fn validated(output: &WorkerOutput) -> Result<(), RecordError> {
    validate_worker_output(
        output,
        Precision::Fp32,
        WorkerPhase::LoadedCacheMeasurement,
        1,
        0.5_f32.to_bits(),
        &"0".repeat(64),
        &is_unit,
    )
}

#[test]
fn worker_outputs_are_held_to_their_contract() {
    let good = || output(Precision::Fp32, vec![face_record([0, 0, 10, 10])]);
    assert_eq!(validated(&good()), Ok(()));
    let mut other = good();
    other.registered_preference = "cpu".to_string();
    assert_eq!(validated(&other), Err(RecordError::OutputContractMismatch));
    let mut order = good();
    order.records[0].index = 1;
    assert_eq!(validated(&order), Err(RecordError::RecordOrderMismatch));
    let mut number = good();
    number.records[0].decode_ms = f64::NAN.to_bits();
    assert_eq!(validated(&number), Err(RecordError::RecordNumericInvalid));
    let mut landmark = good();
    landmark.records[0].faces[0].landmarks[2] = f32::INFINITY.to_bits();
    assert_eq!(validated(&landmark), Err(RecordError::FaceNumericInvalid));
    let mut embedding = good();
    embedding.records[0].faces[0].embedding = vec![0; FACE_EMBEDDING_DIM];
    assert_eq!(
        validated(&embedding),
        Err(RecordError::Embedding(ModelError::NotNormalized))
    );
    let mut decision = good();
    decision.records[0].faces[0].decision = Some(true);
    assert_eq!(validated(&decision), Err(RecordError::DecisionInvalid));
}

fn pair(left: Vec<FaceRecord>, right: Vec<FaceRecord>) -> Vec<PairOutputs> {
    vec![PairOutputs {
        fp32: Some(output(Precision::Fp32, left)),
        fp16: Some(output(Precision::Fp16, right)),
    }]
}

#[test]
fn compared_outputs_count_matches_and_flips() {
    let found = compared(
        &pair(
            vec![face_record([0, 0, 10, 10]), face_record([50, 50, 60, 60])],
            vec![face_record([0, 0, 10, 10])],
        ),
        false,
    )
    .unwrap();
    assert_eq!(found.faces.len(), 1);
    assert_eq!((found.faces[0].left, found.faces[0].right), (0, 0));
    assert_eq!(found.faces[0].cosine, 1.0_f64.to_bits());
    assert_eq!(found.unmatched, 1);
    assert_eq!(found.flips, 0);

    let decided = |decision: bool, score: f32| {
        let mut record = face_record([0, 0, 10, 10]);
        record.enrolled_score = Some(score.to_bits());
        record.decision = Some(decision);
        record
    };
    let flipped = compared(
        &pair(vec![decided(true, 0.75)], vec![decided(false, 0.5)]),
        true,
    )
    .unwrap();
    assert_eq!(flipped.flips, 1);
    assert_eq!(flipped.faces[0].enrolled_drift, Some(0.25_f64.to_bits()));
    let metrics = metric_report(&flipped, true, &Averages { mean, middle });
    assert_eq!(metrics.enrolled_score_abs_drift, one(0.25));
    assert_eq!(metrics.threshold_flips, 1);

    let missing = vec![PairOutputs {
        fp32: None,
        fp16: Some(output(Precision::Fp16, Vec::new())),
    }];
    assert_eq!(
        compared(&missing, false).unwrap_err(),
        RecordError::ArmMissing
    );
    let mut swapped = pair(Vec::new(), Vec::new());
    swapped[0].fp16.as_mut().unwrap().detector_placement = only(CPU);
    assert!(matches!(
        compared(&swapped, false),
        Err(RecordError::Placement(_))
    ));
    assert_eq!(
        compared(&pair(vec![decided(true, 0.75)], vec![face_record([0, 0, 10, 10])]), true)
            .unwrap_err(),
        RecordError::DecisionEvaluationMismatch
    );
}

#[test]
fn cosines_need_two_embeddings() {
    let alike = embedding_cosine(&unit_embedding(0), &unit_embedding(0), &is_unit, &cosine);
    assert_eq!(alike, Ok(1.0_f64.to_bits()));
    assert_eq!(
        embedding_cosine(&unit_embedding(0), &[0; 4], &is_unit, &cosine),
        Err(RecordError::Embedding(ModelError::InvalidEmbedding))
    );
    assert_eq!(
        embedding_cosine(
            &unit_embedding(0),
            &unit_embedding(0),
            &is_unit,
            &|_: &[u32], _: &[u32]| None
        ),
        Err(RecordError::SimilarityUnavailable)
    );
}

#[test]
fn detailed_face_record_zeroizes_every_biometric_field() {
    let made = || FaceRecord {
        bbox: [1, 2, 3, 4],
        landmarks: vec![5.0_f32.to_bits(); 10],
        detector_score: 0.9_f32.to_bits(),
        embedding: unit_embedding(0),
        enrolled_score: Some(0.8_f32.to_bits()),
        decision: Some(true),
    };
    let mut record = made();
    record.zeroize();
    assert_eq!(record.bbox, [0; 4]);
    assert_eq!(record.landmarks, [0.0_f32.to_bits(); 10]);
    assert_eq!(record.detector_score, 0.0_f32.to_bits());
    assert!(record.embedding.is_empty());
    assert_eq!(record.enrolled_score, None);
    assert_eq!(record.decision, None);

    let mut returned = output(Precision::Fp32, vec![made(), made()]);
    scrub_worker_output(&mut returned);
    assert_eq!(returned.records.len(), 1);
    assert!(returned.records[0].faces.is_empty());
    assert_eq!(returned.registered_preference, "migraphx");
}

#[test]
fn messages_carry_no_more_than_their_limits() {
    assert_eq!(WirePart::Digest.check_length(64), Ok(()));
    assert_eq!(
        WirePart::Digest.check_length(65),
        Err(WireError::StringLimit)
    );
    assert_eq!(WirePart::Records.limit(), 32);
    assert_eq!(WirePart::Records.check_room(31), Ok(()));
    assert_eq!(
        WirePart::Records.check_room(32),
        Err(WireError::CollectionLimit)
    );
    assert_eq!(
        WirePart::EnvironmentEntries.check_room(32),
        Err(WireError::EnvironmentLimit)
    );
    assert_eq!(
        WirePart::PlacementNodes.check_length(20_001),
        Err(WireError::PlacementLimit)
    );
    assert_eq!(WireError::PlacementLimit.code(), "wire_placement_limit");
}

#[test]
fn measured_faces_keep_what_was_found() {
    let face = measured_face(
        [1, 2, 3, 4],
        vec![5; 10],
        0.9_f32.to_bits(),
        unit_embedding(3),
        Some((true, 0.7_f32.to_bits())),
        &is_unit,
    )
    .unwrap();
    assert_eq!(face.bbox, [1, 2, 3, 4]);
    assert_eq!(face.landmarks, [5; 10]);
    assert_eq!(face.decision, Some(true));
    assert_eq!(face.enrolled_score, Some(0.7_f32.to_bits()));
    assert_eq!(
        measured_face([0; 4], Vec::new(), 0, vec![0; 512], None, &is_unit).unwrap_err(),
        RecordError::Embedding(ModelError::NotNormalized)
    );
}

#[test]
fn pair_placements_name_both_arms() {
    let placement = public_pair_placement(
        1,
        &output(Precision::Fp32, Vec::new()),
        &output(Precision::Fp16, Vec::new()),
    );
    assert_eq!(placement.pair, 1);
    assert_eq!(placement.fp32_registered_preference, "migraphx");
    assert_eq!(placement.fp16_detector.mode, PlacementMode::AllMigraphx);
}

fn test_provider_stack() -> ProviderStackProvenance {
    let names = [
        "libonnxruntime.so",
        "libonnxruntime_providers_migraphx.so",
        "libmigraphx.so",
        "libamdhip64.so",
        "libhsa-runtime64.so",
    ];
    ProviderStackProvenance {
        libraries: names
            .into_iter()
            .map(|name| RuntimeLibraryDigest {
                name: name.into(),
                path: format!("/usr/lib/{name}"),
                sha256: "1".repeat(64),
                size: 1,
            })
            .collect(),
        has_ort_core: true,
        has_ort_migraphx_provider: true,
        has_migraphx: true,
        has_hip: true,
        has_rocm_runtime: true,
    }
}

fn test_provenance(precision: Precision) -> Provenance {
    Provenance {
        precision,
        detector_digest: "detector".into(),
        recognizer_digest: "recognizer".into(),
        ort_crate_version: ORT_CRATE_VERSION.into(),
        ort_api_version: 24,
        ort_runtime_version: "runtime".into(),
        configured_gpu_target: "gfx-test".into(),
        hsa_override: "11.0.2".into(),
        recognition_threshold_bits: 0.5f32.to_bits(),
        inference_threads: 4,
        provider_name: "migraphx".into(),
        graph_optimization_level: "level2".into(),
        provider_api_fp16: precision.fp16(),
        provider_api_fp8: false,
        provider_api_int8: false,
        provider_api_exhaustive_tune: false,
        environment: reviewed_environment(precision, "11.0.2"),
        corpus_digest: "0".repeat(64),
        provider_stack: test_provider_stack(),
    }
}

#[test]
fn provider_stack_absence_and_digest_mismatch_fail() {
    let expected = test_provider_stack();
    validate_provider_stack(&expected).unwrap();
    let mut absent = test_provider_stack();
    absent.has_hip = false;
    assert!(validate_provider_stack(&absent).is_err());
    let mut mismatch = test_provider_stack();
    mismatch.libraries[0].sha256 = "2".repeat(64);
    assert!(verify_provider_stack_match(&expected, &mismatch).is_err());
    assert!(verify_provider_stack_match(&expected, &expected).is_ok());
}

#[test]
fn provider_libraries_are_found_in_the_maps() {
    let maps = b"7f00-7f10 r-xp 00000000 08:01 1 /usr/lib/libonnxruntime.so.1\n\
        7f10-7f20 r-xp 00000000 08:01 2 /usr/lib/libc.so.6\n\
        7f20-7f30 r--p 00000000 08:01 1 /usr/lib/libonnxruntime.so.1\n\
        7f30-7f40 rw-p 00000000 00:00 0\n";
    assert_eq!(
        provider_library_paths(maps).unwrap(),
        ["/usr/lib/libonnxruntime.so.1"]
    );
    assert_eq!(
        provider_library_paths(
            b"7f00-7f10 r-xp 00000000 08:01 1 /usr/lib/libmigraphx.so (deleted)\n"
        ),
        Err(StackError::LibraryDeleted)
    );
    assert_eq!(
        provider_library_paths(b"\xff"),
        Err(StackError::MapsNonUtf8)
    );
    assert!(is_provider_stack_library("libmigraphx_gpu.so"));
    assert!(!is_provider_stack_library("libc.so.6"));
    assert!(runtime_library_path_is_trusted(b"/usr/lib/libmigraphx.so"));
    assert!(!runtime_library_path_is_trusted(b"/home/libmigraphx.so"));
    let metadata = InputMetadata {
        stamp: ArtifactStamp {
            device: 1,
            inode: 2,
            length: 3,
            mtime: 4,
            mtime_nsec: 5,
            ctime: 6,
            ctime_nsec: 7,
        },
        is_file: true,
        uid: 0,
        mode: 0o100_755,
    };
    assert!(runtime_library_is_trusted(&metadata));
    assert!(!runtime_library_is_trusted(&InputMetadata {
        mode: 0o100_777,
        ..metadata
    }));
    let library = runtime_library(b"/usr/lib/libmigraphx.so", "1".repeat(64), 9).unwrap();
    assert_eq!(library.name, "libmigraphx.so");
    let stack = provider_stack_of(&test_provider_stack().libraries).unwrap();
    assert!(stack.has_ort_core && stack.has_migraphx && stack.has_hip);
    assert_eq!(
        provider_stack_of(&vec![library]).unwrap_err(),
        StackError::Incomplete
    );
}

fn corpus() -> PinnedCorpus {
    PinnedCorpus {
        detector_digest: digest_hex(b"detector"),
        detector_model: b"detector".to_vec(),
        recognizer_digest: digest_hex(b"recognizer"),
        recognizer_model: b"recognizer".to_vec(),
        enrolled_model: None,
        fixtures: Vec::new(),
    }
}

#[test]
fn provenance_must_match_in_every_part() {
    let left = test_provenance(Precision::Fp32);
    assert!(provenance_matches(&left, &test_provenance(Precision::Fp32)));
    assert!(!provenance_matches(
        &left,
        &test_provenance(Precision::Fp16)
    ));
    let corpus = corpus();
    let digest = corpus_digest(&corpus);
    let provenance = Provenance {
        detector_digest: corpus.detector_digest.clone(),
        recognizer_digest: corpus.recognizer_digest.clone(),
        corpus_digest: digest.clone(),
        ..test_provenance(Precision::Fp32)
    };
    let valid = |threads: usize| {
        verify_output_provenance(
            &provenance,
            &digest,
            &config(),
            &corpus,
            Precision::Fp32,
            &reviewed_environment(Precision::Fp32, "11.0.2"),
            24,
            threads,
        )
    };
    assert!(valid(4));
    assert!(!valid(5));
}

#[test]
fn frames_carry_their_length() {
    let frame = encode_frame(b"abc", 10).unwrap();
    assert_eq!(frame, [0, 0, 0, 3, b'a', b'b', b'c']);
    assert_eq!(decode_frame(&frame, 10).unwrap(), b"abc");
    assert_eq!(frame_length([0, 0, 1, 0], 256), Ok(256));
    assert_eq!(
        frame_length([0, 0, 1, 1], 256),
        Err(ProtocolError::PayloadOverflow)
    );
    assert_eq!(
        encode_frame(b"abcd", 3),
        Err(ProtocolError::PayloadOverflow)
    );
    assert_eq!(
        decode_frame(&frame[..6], 10),
        Err(ProtocolError::UnexpectedEof)
    );
    let mut longer = frame;
    longer.push(0);
    assert_eq!(decode_frame(&longer, 10), Err(ProtocolError::TrailingData));
}

#[test]
fn capabilities_authorize_workers() {
    let capability = decode_capability(&"07".repeat(CAPABILITY_BYTES)).unwrap();
    assert_eq!(capability, [7; CAPABILITY_BYTES]);
    assert_eq!(
        decode_capability("zz"),
        Err(ProtocolError::CapabilityDecode)
    );
    assert_eq!(
        decode_capability("07"),
        Err(ProtocolError::CapabilityLength)
    );
    assert_eq!(
        check_worker_request(PROTOCOL_VERSION, &capability, &capability),
        Ok(())
    );
    assert_eq!(
        check_worker_request(PROTOCOL_VERSION, &[8; 32], &capability),
        Err(ProtocolError::CapabilityRejected)
    );
    assert!(check_worker_request(PROTOCOL_VERSION + 1, &capability, &capability).is_err());
    assert_eq!(check_worker_exit(true, &capability, &capability), Ok(()));
    assert_eq!(
        check_worker_exit(false, &capability, &capability),
        Err(ProtocolError::WorkerFailed)
    );
    assert_eq!(
        check_worker_exit(true, &[8; 32], &capability),
        Err(ProtocolError::OutputCapabilityMismatch)
    );
    assert_eq!(
        check_worker_invocation(&Vec::new()),
        Err(ProtocolError::InvocationRejected)
    );
}

#[test]
fn launches_accept_only_finished_workers() {
    assert_eq!(
        worker_arguments(),
        [&b"--worker"[..], &b"--protocol-fd"[..], &b"3"[..]]
    );
    assert_eq!(
        check_worker_invocation(&worker_arguments().split_off(1)),
        Ok(())
    );
    let mut step = LaunchStep::Prepare;
    let mut taken = Vec::new();
    while step != LaunchStep::Accepted {
        taken.push(step);
        let event = match step {
            LaunchStep::ReadHeader => LaunchEvent::Header([0, 0, 0, 9]),
            LaunchStep::WaitForExit => LaunchEvent::Exited {
                success: true,
                capability_matches: true,
            },
            LaunchStep::Failed(_) => panic!("the worker is accepted"),
            _ => LaunchEvent::Done,
        };
        step = launch_worker(step, event);
    }
    assert!(taken.contains(&LaunchStep::ReadOutput { length: 9 }));
    assert_eq!(taken.last(), Some(&LaunchStep::Finalize));
    assert_eq!(
        launch_worker(
            LaunchStep::WaitForExit,
            LaunchEvent::Exited {
                success: false,
                capability_matches: true,
            }
        ),
        LaunchStep::Failed(ProtocolError::WorkerFailed)
    );
    assert_eq!(
        launch_worker(
            LaunchStep::ReadHeader,
            LaunchEvent::Header([0xff, 0xff, 0xff, 0xff])
        ),
        LaunchStep::Failed(ProtocolError::PayloadOverflow)
    );
    assert_eq!(
        launch_worker(
            LaunchStep::Spawn,
            LaunchEvent::Failed(ProtocolError::DeadlineExceeded)
        ),
        LaunchStep::Failed(ProtocolError::DeadlineExceeded)
    );
}

#[test]
fn transfers_move_everything_before_their_deadline() {
    let (mut transfer, mut step) = Transfer::begin(Direction::Write, 5);
    let mut moved = Vec::new();
    loop {
        let event = match step {
            TransferStep::Finished(ref result) => {
                assert_eq!(*result, Ok(()));
                break;
            }
            TransferStep::CheckDeadline => TransferEvent::InTime,
            TransferStep::Poll => TransferEvent::InTime,
            TransferStep::Move { from } => {
                moved.push(from);
                if moved.len() == 2 {
                    TransferEvent::WouldBlock
                } else {
                    TransferEvent::Moved((5 - from).min(3))
                }
            }
        };
        step = transfer.after(event);
    }
    assert_eq!(moved, [0, 3, 3]);
    let (mut late, _) = Transfer::begin(Direction::Read, 4);
    assert_eq!(
        late.after(TransferEvent::Expired),
        TransferStep::Finished(Err(ProtocolError::DeadlineExceeded))
    );
    let close = |direction: Direction| {
        let (mut transfer, _) = Transfer::begin(direction, 4);
        transfer.after(TransferEvent::InTime);
        transfer.after(TransferEvent::Moved(0))
    };
    assert_eq!(
        close(Direction::Write),
        TransferStep::Finished(Err(ProtocolError::WriteClosed))
    );
    assert_eq!(
        close(Direction::Read),
        TransferStep::Finished(Err(ProtocolError::UnexpectedEof))
    );
    assert_eq!(close(Direction::End), TransferStep::Finished(Ok(())));
    let (mut ended, _) = Transfer::begin(Direction::End, 0);
    ended.after(TransferEvent::InTime);
    assert_eq!(
        ended.after(TransferEvent::Moved(1)),
        TransferStep::Finished(Err(ProtocolError::TrailingData))
    );
    let (mut failed, _) = Transfer::begin(Direction::Read, 4);
    failed.after(TransferEvent::InTime);
    assert_eq!(
        failed.after(TransferEvent::Failed),
        TransferStep::Finished(Err(ProtocolError::Failed))
    );
}

#[test]
fn groups_are_ended_before_success() {
    let sight = |exists: bool, expired: bool| GroupSight { exists, expired };
    assert_eq!(
        success_finalize(FinalStage::Begin, sight(true, false)),
        FinalStep::Signal {
            signal: GroupSignal::Terminate,
            next: FinalStage::Grace,
        }
    );
    assert_eq!(
        success_finalize(FinalStage::Grace, sight(true, true)),
        FinalStep::Signal {
            signal: GroupSignal::Kill,
            next: FinalStage::Killed,
        }
    );
    assert_eq!(
        success_finalize(FinalStage::Killed, sight(true, true)),
        FinalStep::Finished(Err(ProtocolError::ProcessGroupSurvived))
    );
    assert_eq!(
        success_finalize(FinalStage::Last, sight(false, false)),
        FinalStep::Finished(Ok(()))
    );
    assert_eq!(wait_until(false, true), WaitStep::Ended);
    assert_eq!(wait_until(false, false), WaitStep::Sleep);
    assert_eq!(wait_until(true, false), WaitStep::TerminateAndFail);
}

#[test]
fn runs_generate_then_measure_both_arms() {
    let mut run = ParentRun::begin(2);
    let mut launches = Vec::new();
    loop {
        match run.step {
            RunStep::Passed => break,
            RunStep::Failed | RunStep::GatesRejected => panic!("the run passes"),
            RunStep::BuildReport => run.after(RunReply::Built { passed: true }),
            RunStep::Arm { pair, task, .. } => {
                if let Some(phase) = launched_phase(task) {
                    launches.push((pair, run.precision().unwrap(), phase));
                }
                run.after(RunReply::Done);
            }
            _ => run.after(RunReply::Done),
        }
    }
    let generation = WorkerPhase::CacheGeneration;
    let measurement = WorkerPhase::LoadedCacheMeasurement;
    assert_eq!(
        launches,
        [
            (0, Precision::Fp32, generation),
            (0, Precision::Fp16, generation),
            (0, Precision::Fp32, measurement),
            (0, Precision::Fp16, measurement),
            (1, Precision::Fp16, generation),
            (1, Precision::Fp32, generation),
            (1, Precision::Fp16, measurement),
            (1, Precision::Fp32, measurement),
        ]
    );
    let mut failing = ParentRun::begin(1);
    failing.after(RunReply::Failed);
    assert_eq!(failing.step, RunStep::Failed);
    let mut rejected = ParentRun {
        step: RunStep::BuildReport,
        ..ParentRun::begin(1)
    };
    rejected.after(RunReply::Built { passed: false });
    rejected.after(RunReply::Done);
    rejected.after(RunReply::Done);
    assert_eq!(rejected.step, RunStep::GatesRejected);
    assert_eq!(launched_phase(ArmTask::InventoryBefore), None);
}

fn request() -> WorkerRequest {
    let corpus = corpus();
    WorkerRequest {
        phase: WorkerPhase::CacheGeneration,
        precision: Precision::Fp16,
        cache_dir: "/proc/self/fd/4".to_string(),
        profile_dir: "/proc/self/fd/5".to_string(),
        threshold: 0.5_f32.to_bits(),
        configured_gpu_target: "gfx-test".to_string(),
        hsa_override: "11.0.2".to_string(),
        environment: reviewed_environment(Precision::Fp16, "11.0.2"),
        expected_provenance: None,
        corpus_digest: corpus_digest(&corpus),
        corpus,
    }
}

#[test]
fn workers_check_what_they_are_asked() {
    assert_eq!(check_request(&request()), Ok(()));
    let mut place = request();
    place.cache_dir = "/tmp".to_string();
    assert_eq!(
        check_request(&place),
        Err(WorkerError::FdPathContractMismatch)
    );
    let mut attestation = request();
    attestation.environment.set.clear();
    assert_eq!(
        check_request(&attestation),
        Err(WorkerError::CacheAttestationMismatch)
    );
    let mut number = request();
    number.threshold = f32::NAN.to_bits();
    assert_eq!(
        check_request(&number),
        Err(WorkerError::NumericConfiguration)
    );
    let mut digest = request();
    digest.corpus.detector_model.push(0);
    assert_eq!(
        check_request(&digest),
        Err(WorkerError::CorpusDigestMismatch)
    );
    let provenance = worker_provenance(
        &request(),
        24,
        "1.24".to_string(),
        4,
        test_provider_stack(),
    );
    assert_eq!(provenance.precision, Precision::Fp16);
    assert!(provenance.provider_api_fp16);
    assert_eq!(check_expectation(&None, &provenance), Ok(()));
    assert_eq!(
        check_expectation(&Some(test_provenance(Precision::Fp16)), &provenance),
        Err(WorkerError::ProvenanceMismatch)
    );
    assert_ne!(
        profile_base(
            Precision::Fp16,
            WorkerPhase::CacheGeneration,
            ProfiledModel::Detector
        ),
        profile_base(
            Precision::Fp16,
            WorkerPhase::CacheGeneration,
            ProfiledModel::Recognizer
        )
    );
}

#[test]
fn parents_ask_for_what_workers_accept() {
    let corpus = corpus();
    let digest = corpus_digest(&corpus);
    let asked = worker_request(
        &config(),
        corpus,
        digest.clone(),
        Precision::Fp32,
        WorkerPhase::CacheGeneration,
        &reviewed_environment(Precision::Fp32, "11.0.2"),
        None,
    );
    assert_eq!(asked.threshold, 0.5_f32.to_bits());
    assert_eq!(asked.hsa_override, "11.0.2");
    assert_eq!(asked.corpus_digest, digest);
    assert_eq!(check_request(&asked), Ok(()));
}

#[test]
fn workers_measure_only_after_their_checks() {
    let mut run = WorkerRun::begin(WorkerPhase::LoadedCacheMeasurement, 2, true);
    let mut steps = Vec::new();
    while run.step != WorkerStep::Respond && run.step != WorkerStep::Failed {
        steps.push(run.step);
        run.after(true);
    }
    assert_eq!(run.step, WorkerStep::Respond);
    assert_eq!(
        steps[..5],
        [
            WorkerStep::CheckEnvironment,
            WorkerStep::CheckCacheDirectory,
            WorkerStep::CheckProfileDirectory,
            WorkerStep::CheckRequest,
            WorkerStep::BuildEngine,
        ]
    );
    assert!(steps.contains(&WorkerStep::Measure(1)));
    assert!(steps.contains(&WorkerStep::ParseEnrolled));
    let mut failing = WorkerRun::begin(WorkerPhase::CacheGeneration, 1, false);
    failing.after(false);
    assert_eq!(failing.step, WorkerStep::Failed);
}
