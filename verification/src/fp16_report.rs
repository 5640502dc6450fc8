//! The gates that the precision experiment has to pass, and its report.
use crate::float_bits::{at_most64, is_at_most64, less64};
use crate::fp16_args::{Gates, ParentConfig};
use crate::fp16_comparison::{
    are_comparable, can_compare, compare_outputs, compared_records, is_timed, nothing_compared,
    realizes, shared_records, with_pairs, ComparedFaces, Comparison, FaceTools, Matcher, PairOutputs,
    Tally,
};
use crate::fp16_corpus::FixtureClass;
use crate::fp16_environment::{arm_at, pair_order, Precision};
use crate::fp16_metrics::{
    averages_as, can_average, distribution, distributions_come_of_sorted_values,
    extremes_enclose_the_values, summarizes, Averages, Averaging, Distribution,
};
use crate::fp16_placement::{public_placement, PlacementFacts, PublicPlacement};
use crate::fp16_protocol::PROTOCOL_VERSION;
use crate::fp16_records::{ImageRecord, RecordError, WorkerOutput};
use vstd::prelude::*;
use vstd::string::*;

verus! {

/// A distribution is that of values, whatever its averages are.
pub open spec fn is_distribution<M: Fn(&[u64]) -> u64, H: Fn(u64, u64) -> u64>(
    found: Distribution,
    values: Seq<u64>,
    averages: Averages<M, H>,
) -> bool {
    forall|averaging: Averaging| #[trigger]
        averages_as(averages, averaging) ==> summarizes(found, values, averaging)
}

/// What the gates look at.
#[derive(Clone, Copy, Debug, PartialEq, Eq, Structural)]
pub struct MetricReport {
    pub box_iou: Distribution,
    pub detector_score_abs_drift: Distribution,
    pub landmark_point_rmse_pixels: Distribution,
    pub embedding_cosine: Distribution,
    pub enrolled_score_abs_drift: Distribution,
    pub matched_faces: usize,
    pub unmatched_faces: usize,
    pub threshold_flips: usize,
    pub decision_testing_evaluated: bool,
}

/// The drifts of those faces that were scored.
pub open spec fn enrolled_drifts(faces: Seq<ComparedFaces>) -> Seq<u64>
    decreases faces.len(),
{
    if faces.len() == 0 {
        Seq::empty()
    } else {
        match faces.last().enrolled_drift {
            Some(bits) => enrolled_drifts(faces.drop_last()).push(bits),
            None => enrolled_drifts(faces.drop_last()),
        }
    }
}

/// Metrics are those of compared faces.
pub open spec fn is_metric_report<M: Fn(&[u64]) -> u64, H: Fn(u64, u64) -> u64>(
    metrics: MetricReport,
    tally: Tally,
    decisions_evaluated: bool,
    averages: Averages<M, H>,
) -> bool {
    &&& is_distribution(
        metrics.box_iou,
        tally.faces.map_values(|face: ComparedFaces| face.iou),
        averages,
    )
    &&& is_distribution(
        metrics.detector_score_abs_drift,
        tally.faces.map_values(|face: ComparedFaces| face.score_drift),
        averages,
    )
    &&& is_distribution(
        metrics.landmark_point_rmse_pixels,
        tally.faces.map_values(|face: ComparedFaces| face.landmark_rmse),
        averages,
    )
    &&& is_distribution(
        metrics.embedding_cosine,
        tally.faces.map_values(|face: ComparedFaces| face.cosine),
        averages,
    )
    &&& is_distribution(metrics.enrolled_score_abs_drift, enrolled_drifts(tally.faces), averages)
    &&& metrics.matched_faces == tally.faces.len()
    &&& metrics.unmatched_faces == tally.unmatched
    &&& metrics.threshold_flips == tally.flips
    &&& metrics.decision_testing_evaluated == decisions_evaluated
}

/// The metrics of compared faces.
pub fn metric_report<M: Fn(&[u64]) -> u64, H: Fn(u64, u64) -> u64>(
    comparison: &Comparison,
    decisions_evaluated: bool,
    averages: &Averages<M, H>,
) -> (metrics: MetricReport)
    requires
        can_average(*averages),
    ensures
        is_metric_report(metrics, comparison@, decisions_evaluated, *averages),
{
    let faces = &comparison.faces;
    let mut overlaps: Vec<u64> = Vec::new();
    let mut drifts: Vec<u64> = Vec::new();
    let mut errors: Vec<u64> = Vec::new();
    let mut cosines: Vec<u64> = Vec::new();
    let mut enrolled: Vec<u64> = Vec::new();
    let mut index: usize = 0;
    while index < faces.len()
        invariant
            index <= faces@.len(),
            overlaps@ == faces@.take(index as int).map_values(|face: ComparedFaces| face.iou),
            drifts@ == faces@.take(index as int).map_values(
                |face: ComparedFaces| face.score_drift,
            ),
            errors@ == faces@.take(index as int).map_values(
                |face: ComparedFaces| face.landmark_rmse,
            ),
            cosines@ == faces@.take(index as int).map_values(|face: ComparedFaces| face.cosine),
            enrolled@ == enrolled_drifts(faces@.take(index as int)),
        decreases faces.len() - index,
    {
        let face: ComparedFaces = faces[index];
        proof {
            let next = faces@.take(index + 1);
            assert(next.drop_last() =~= faces@.take(index as int));
            assert(next.last() == face);
        }
        overlaps.push(face.iou);
        drifts.push(face.score_drift);
        errors.push(face.landmark_rmse);
        cosines.push(face.cosine);
        match face.enrolled_drift {
            Some(bits) => {
                enrolled.push(bits);
            },
            None => {},
        }
        index = index + 1;
        assert(overlaps@ =~= faces@.take(index as int).map_values(
            |face: ComparedFaces| face.iou,
        ));
        assert(drifts@ =~= faces@.take(index as int).map_values(
            |face: ComparedFaces| face.score_drift,
        ));
        assert(errors@ =~= faces@.take(index as int).map_values(
            |face: ComparedFaces| face.landmark_rmse,
        ));
        assert(cosines@ =~= faces@.take(index as int).map_values(
            |face: ComparedFaces| face.cosine,
        ));
    }
    assert(faces@.take(index as int) =~= faces@);
    MetricReport {
        box_iou: distribution(&overlaps, averages),
        detector_score_abs_drift: distribution(&drifts, averages),
        landmark_point_rmse_pixels: distribution(&errors, averages),
        embedding_cosine: distribution(&cosines, averages),
        enrolled_score_abs_drift: distribution(&enrolled, averages),
        matched_faces: faces.len(),
        unmatched_faces: comparison.unmatched,
        threshold_flips: comparison.flips,
        decision_testing_evaluated: decisions_evaluated,
    }
}

/// What of a fixture was timed.
#[derive(Clone, Copy, Debug, PartialEq, Eq, Structural)]
pub enum TimedPart {
    Decode,
    Detector,
    Recognizer,
    EnrolledMatching,
    Complete,
}

pub open spec fn time_of(record: ImageRecord, part: TimedPart) -> u64 {
    match part {
        TimedPart::Decode => record.decode_ms,
        TimedPart::Detector => record.detector_pipeline_ms,
        TimedPart::Recognizer => record.recognizer_pipeline_ms,
        TimedPart::EnrolledMatching => record.enrolled_matching_ms,
        TimedPart::Complete => record.complete_fixture_ms,
    }
}

/// The times of the first `count` records.
pub open spec fn record_times(records: Seq<ImageRecord>, part: TimedPart, count: nat) -> Seq<u64>
    decreases count,
{
    if count == 0 {
        Seq::empty()
    } else {
        record_times(records, part, (count - 1) as nat).push(time_of(records[count - 1], part))
    }
}

pub open spec fn arm_of(outputs: PairOutputs, precision: Precision) -> Option<WorkerOutput> {
    match precision {
        Precision::Fp32 => outputs.fp32,
        Precision::Fp16 => outputs.fp16,
    }
}

/// The times of one arm in the first `count` pairs.
pub open spec fn arm_times(
    outputs: Seq<PairOutputs>,
    precision: Precision,
    part: TimedPart,
    count: nat,
) -> Seq<u64>
    decreases count,
{
    if count == 0 {
        Seq::empty()
    } else {
        let before = arm_times(outputs, precision, part, (count - 1) as nat);
        match arm_of(outputs[count - 1], precision) {
            Some(output) => before + record_times(output.records@, part, output.records@.len()),
            None => before,
        }
    }
}

fn push_times(times: &mut Vec<u64>, records: &Vec<ImageRecord>, part: TimedPart)
    ensures
        final(times)@ == old(times)@ + record_times(records@, part, records@.len()),
{
    let mut index: usize = 0;
    assert(times@ =~= old(times)@ + record_times(records@, part, 0));
    while index < records.len()
        invariant
            index <= records@.len(),
            times@ == old(times)@ + record_times(records@, part, index as nat),
        decreases records.len() - index,
    {
        let record = &records[index];
        times.push(
            match part {
                TimedPart::Decode => record.decode_ms,
                TimedPart::Detector => record.detector_pipeline_ms,
                TimedPart::Recognizer => record.recognizer_pipeline_ms,
                TimedPart::EnrolledMatching => record.enrolled_matching_ms,
                TimedPart::Complete => record.complete_fixture_ms,
            },
        );
        index = index + 1;
        assert(times@ =~= old(times)@ + record_times(records@, part, index as nat));
    }
}

fn collect_times(outputs: &Vec<PairOutputs>, precision: Precision, part: TimedPart) -> (times: Vec<
    u64,
>)
    ensures
        times@ == arm_times(outputs@, precision, part, outputs@.len()),
{
    let mut times: Vec<u64> = Vec::new();
    let mut index: usize = 0;
    while index < outputs.len()
        invariant
            index <= outputs@.len(),
            times@ == arm_times(outputs@, precision, part, index as nat),
        decreases outputs.len() - index,
    {
        let arm: &Option<WorkerOutput> = match precision {
            Precision::Fp32 => &outputs[index].fp32,
            Precision::Fp16 => &outputs[index].fp16,
        };
        match arm {
            Some(output) => {
                push_times(&mut times, &output.records, part);
            },
            None => {},
        }
        index = index + 1;
    }
    times
}

/// How long the parts of measuring a fixture took.
#[derive(Clone, Copy, Debug, PartialEq, Eq, Structural)]
pub struct TimingReport {
    pub image_decode_ms: Distribution,
    pub detector_preprocess_run_postprocess_ms: Distribution,
    pub recognizer_alignment_run_ms: Distribution,
    pub enrolled_matching_ms: Distribution,
    pub complete_fixture_ms: Distribution,
}

/// A timing report is that of an arm.
pub open spec fn is_timing_report<M: Fn(&[u64]) -> u64, H: Fn(u64, u64) -> u64>(
    report: TimingReport,
    outputs: Seq<PairOutputs>,
    precision: Precision,
    averages: Averages<M, H>,
) -> bool {
    let times = |part: TimedPart| arm_times(outputs, precision, part, outputs.len());
    &&& is_distribution(report.image_decode_ms, times(TimedPart::Decode), averages)
    &&& is_distribution(
        report.detector_preprocess_run_postprocess_ms,
        times(TimedPart::Detector),
        averages,
    )
    &&& is_distribution(
        report.recognizer_alignment_run_ms,
        times(TimedPart::Recognizer),
        averages,
    )
    &&& is_distribution(
        report.enrolled_matching_ms,
        times(TimedPart::EnrolledMatching),
        averages,
    )
    &&& is_distribution(report.complete_fixture_ms, times(TimedPart::Complete), averages)
}

/// How long an arm took.
pub fn timing_report<M: Fn(&[u64]) -> u64, H: Fn(u64, u64) -> u64>(
    outputs: &Vec<PairOutputs>,
    precision: Precision,
    averages: &Averages<M, H>,
) -> (report: TimingReport)
    requires
        can_average(*averages),
    ensures
        is_timing_report(report, outputs@, precision, *averages),
{
    let decode = collect_times(outputs, precision, TimedPart::Decode);
    let detector = collect_times(outputs, precision, TimedPart::Detector);
    let recognizer = collect_times(outputs, precision, TimedPart::Recognizer);
    let matching = collect_times(outputs, precision, TimedPart::EnrolledMatching);
    let complete = collect_times(outputs, precision, TimedPart::Complete);
    TimingReport {
        image_decode_ms: distribution(&decode, averages),
        detector_preprocess_run_postprocess_ms: distribution(&detector, averages),
        recognizer_alignment_run_ms: distribution(&recognizer, averages),
        enrolled_matching_ms: distribution(&matching, averages),
        complete_fixture_ms: distribution(&complete, averages),
    }
}

/// The numbers that come of times, by their bits: how much longer one took than
/// another, and how long it was from one reading of the clock to the next.
pub struct TimeTools<S, E> {
    pub minus: S,
    pub elapsed: E,
}

/// The tools for times work on everything.
pub open spec fn can_time<S: Fn(u64, u64) -> u64, E: Fn(u64, u64) -> u64>(
    tools: TimeTools<S, E>,
) -> bool {
    &&& forall|a: u64, b: u64| #[trigger] call_requires(tools.minus, (a, b))
    &&& forall|a: u64, b: u64| #[trigger] call_requires(tools.elapsed, (a, b))
}

/// `minus` is a function, and this one.
pub open spec fn subtracts<S: Fn(u64, u64) -> u64>(
    minus: S,
    difference: spec_fn(u64, u64) -> u64,
) -> bool {
    forall|a: u64, b: u64, bits: u64| #[trigger]
        call_ensures(minus, (a, b), bits) ==> bits == difference(a, b)
}

/// How much longer the second arm took than the first, for the first `count`
/// fixtures.
pub open spec fn record_deltas(
    left: Seq<ImageRecord>,
    right: Seq<ImageRecord>,
    difference: spec_fn(u64, u64) -> u64,
    count: nat,
) -> Seq<u64>
    decreases count,
{
    if count == 0 {
        Seq::empty()
    } else {
        record_deltas(left, right, difference, (count - 1) as nat).push(
            difference(
                right[count - 1].complete_fixture_ms,
                left[count - 1].complete_fixture_ms,
            ),
        )
    }
}

/// How much longer the half-precision arm took, in the first `count` pairs.
pub open spec fn fixture_deltas(
    outputs: Seq<PairOutputs>,
    difference: spec_fn(u64, u64) -> u64,
    count: nat,
) -> Seq<u64>
    decreases count,
{
    if count == 0 {
        Seq::empty()
    } else {
        let before = fixture_deltas(outputs, difference, (count - 1) as nat);
        match (outputs[count - 1].fp32, outputs[count - 1].fp16) {
            (Some(fp32), Some(fp16)) => before + record_deltas(
                fp32.records@,
                fp16.records@,
                difference,
                shared_records(outputs[count - 1]),
            ),
            _ => before,
        }
    }
}

fn push_deltas<S: Fn(u64, u64) -> u64>(
    deltas: &mut Vec<u64>,
    left: &Vec<ImageRecord>,
    right: &Vec<ImageRecord>,
    minus: &S,
)
    requires
        forall|a: u64, b: u64| #[trigger] call_requires(*minus, (a, b)),
    ensures
        forall|difference: spec_fn(u64, u64) -> u64| #[trigger]
            subtracts(*minus, difference) ==> final(deltas)@ == old(deltas)@ + record_deltas(
                left@,
                right@,
                difference,
                if left@.len() <= right@.len() {
                    left@.len()
                } else {
                    right@.len()
                },
            ),
{
    let mut index: usize = 0;
    proof {
        assert forall|difference: spec_fn(u64, u64) -> u64| #[trigger]
            subtracts(*minus, difference) implies deltas@ == old(deltas)@ + record_deltas(
            left@,
            right@,
            difference,
            0,
        ) by {
            assert(deltas@ =~= old(deltas)@ + record_deltas(left@, right@, difference, 0));
        }
    }
    while index < left.len() && index < right.len()
        invariant
            index <= left@.len(),
            index <= right@.len(),
            forall|a: u64, b: u64| #[trigger] call_requires(*minus, (a, b)),
            forall|difference: spec_fn(u64, u64) -> u64| #[trigger]
                subtracts(*minus, difference) ==> deltas@ == old(deltas)@ + record_deltas(
                    left@,
                    right@,
                    difference,
                    index as nat,
                ),
        decreases left.len() - index,
    {
        let ghost before = deltas@;
        let bits: u64 = minus(right[index].complete_fixture_ms, left[index].complete_fixture_ms);
        deltas.push(bits);
        index = index + 1;
        proof {
            assert forall|difference: spec_fn(u64, u64) -> u64| #[trigger]
                subtracts(*minus, difference) implies deltas@ == old(deltas)@ + record_deltas(
                left@,
                right@,
                difference,
                index as nat,
            ) by {
                assert(deltas@ =~= old(deltas)@ + record_deltas(
                    left@,
                    right@,
                    difference,
                    index as nat,
                ));
            }
        }
    }
}

fn collect_deltas<S: Fn(u64, u64) -> u64>(outputs: &Vec<PairOutputs>, minus: &S) -> (deltas: Vec<
    u64,
>)
    requires
        forall|a: u64, b: u64| #[trigger] call_requires(*minus, (a, b)),
    ensures
        forall|difference: spec_fn(u64, u64) -> u64| #[trigger]
            subtracts(*minus, difference) ==> deltas@ == fixture_deltas(
                outputs@,
                difference,
                outputs@.len(),
            ),
{
    let mut deltas: Vec<u64> = Vec::new();
    let mut index: usize = 0;
    while index < outputs.len()
        invariant
            index <= outputs@.len(),
            forall|a: u64, b: u64| #[trigger] call_requires(*minus, (a, b)),
            forall|difference: spec_fn(u64, u64) -> u64| #[trigger]
                subtracts(*minus, difference) ==> deltas@ == fixture_deltas(
                    outputs@,
                    difference,
                    index as nat,
                ),
        decreases outputs.len() - index,
    {
        match (&outputs[index].fp32, &outputs[index].fp16) {
            (Some(fp32), Some(fp16)) => {
                push_deltas(&mut deltas, &fp32.records, &fp16.records, minus);
            },
            _ => {},
        }
        index = index + 1;
    }
    deltas
}

/// A value of a gate: a number by its bits, or a count.
#[derive(Clone, Copy, Debug, PartialEq, Eq, Structural)]
pub enum GateValue {
    Bits(u64),
    Count(usize),
}

#[derive(Clone, Copy, Debug, PartialEq, Eq, Structural)]
pub enum Comparator {
    AtLeast,
    AtMost,
    Equal,
}

impl Comparator {
    pub open spec fn text(self) -> Seq<char> {
        match self {
            Comparator::AtLeast => ">="@,
            Comparator::AtMost => "<="@,
            Comparator::Equal => "=="@,
        }
    }

    pub fn symbol(self) -> (symbol: &'static str)
        ensures
            symbol@ == self.text(),
    {
        match self {
            Comparator::AtLeast => ">=",
            Comparator::AtMost => "<=",
            Comparator::Equal => "==",
        }
    }
}

/// The result of a gate. One that was not evaluated has neither a value nor an
/// outcome.
#[derive(Clone, Copy, Debug, PartialEq, Eq, Structural)]
pub struct GateResult {
    pub comparator: Comparator,
    pub value: Option<GateValue>,
    pub limit: GateValue,
    pub evaluated_count: usize,
    pub passed: Option<bool>,
}

#[derive(Clone, Copy, Debug, PartialEq, Eq, Structural)]
pub struct GateReport {
    pub face_iou: GateResult,
    pub detector_score_drift: GateResult,
    pub landmark_rmse: GateResult,
    pub embedding_cosine: GateResult,
    pub enrolled_score_drift: GateResult,
    pub threshold_flips: GateResult,
    pub unmatched_faces: GateResult,
}

/// A gate on the smallest value: there must be one, and it must reach the limit.
pub open spec fn floor_gate(values: Distribution, limit: u64) -> GateResult {
    GateResult {
        comparator: Comparator::AtLeast,
        value: Some(GateValue::Bits(values.min)),
        limit: GateValue::Bits(limit),
        evaluated_count: values.count,
        passed: Some(values.count > 0 && at_most64(limit, values.min)),
    }
}

/// A gate on the largest value: there must be one, and it must keep the limit.
pub open spec fn ceiling_gate(values: Distribution, limit: u64) -> GateResult {
    GateResult {
        comparator: Comparator::AtMost,
        value: Some(GateValue::Bits(values.max)),
        limit: GateValue::Bits(limit),
        evaluated_count: values.count,
        passed: Some(values.count > 0 && at_most64(values.max, limit)),
    }
}

/// A gate as it is where it is not evaluated.
pub open spec fn if_evaluated(gate: GateResult, evaluated: bool) -> GateResult {
    if evaluated {
        gate
    } else {
        GateResult { value: None, passed: None, ..gate }
    }
}

/// What the gates say of metrics.
pub open spec fn gates_of_metrics(gates: Gates, metrics: MetricReport) -> GateReport {
    let drift = metrics.enrolled_score_abs_drift;
    GateReport {
        face_iou: floor_gate(metrics.box_iou, gates.min_face_iou),
        detector_score_drift: ceiling_gate(
            metrics.detector_score_abs_drift,
            gates.max_detector_score_drift,
        ),
        landmark_rmse: ceiling_gate(metrics.landmark_point_rmse_pixels, gates.max_landmark_rmse),
        embedding_cosine: floor_gate(metrics.embedding_cosine, gates.min_embedding_cosine),
        enrolled_score_drift: if_evaluated(
            ceiling_gate(drift, gates.max_enrolled_score_drift),
            metrics.decision_testing_evaluated,
        ),
        threshold_flips: if_evaluated(
            GateResult {
                comparator: Comparator::Equal,
                value: Some(GateValue::Count(metrics.threshold_flips)),
                limit: GateValue::Count(0),
                evaluated_count: drift.count,
                passed: Some(drift.count > 0 && metrics.threshold_flips == 0),
            },
            metrics.decision_testing_evaluated,
        ),
        unmatched_faces: GateResult {
            comparator: Comparator::Equal,
            value: Some(GateValue::Count(metrics.unmatched_faces)),
            limit: GateValue::Count(0),
            evaluated_count: (metrics.matched_faces + metrics.unmatched_faces) as usize,
            passed: Some(metrics.unmatched_faces == 0),
        },
    }
}

fn gate_at_least(values: Distribution, limit: u64) -> (gate: GateResult)
    ensures
        gate == floor_gate(values, limit),
{
    GateResult {
        comparator: Comparator::AtLeast,
        value: Some(GateValue::Bits(values.min)),
        limit: GateValue::Bits(limit),
        evaluated_count: values.count,
        passed: Some(values.count > 0 && is_at_most64(limit, values.min)),
    }
}

fn gate_at_most(values: Distribution, limit: u64) -> (gate: GateResult)
    ensures
        gate == ceiling_gate(values, limit),
{
    GateResult {
        comparator: Comparator::AtMost,
        value: Some(GateValue::Bits(values.max)),
        limit: GateValue::Bits(limit),
        evaluated_count: values.count,
        passed: Some(values.count > 0 && is_at_most64(values.max, limit)),
    }
}

fn optional_gate(gate: GateResult, evaluated: bool) -> (result: GateResult)
    ensures
        result == if_evaluated(gate, evaluated),
{
    if evaluated {
        gate
    } else {
        GateResult {
            comparator: gate.comparator,
            value: None,
            limit: gate.limit,
            evaluated_count: gate.evaluated_count,
            passed: None,
        }
    }
}

/// What the gates say of metrics.
pub fn gate_report(gates: Gates, metrics: MetricReport) -> (report: GateReport)
    requires
        metrics.matched_faces + metrics.unmatched_faces <= usize::MAX,
    ensures
        report == gates_of_metrics(gates, metrics),
{
    let drift: Distribution = metrics.enrolled_score_abs_drift;
    let flips = GateResult {
        comparator: Comparator::Equal,
        value: Some(GateValue::Count(metrics.threshold_flips)),
        limit: GateValue::Count(0),
        evaluated_count: drift.count,
        passed: Some(drift.count > 0 && metrics.threshold_flips == 0),
    };
    GateReport {
        face_iou: gate_at_least(metrics.box_iou, gates.min_face_iou),
        detector_score_drift: gate_at_most(
            metrics.detector_score_abs_drift,
            gates.max_detector_score_drift,
        ),
        landmark_rmse: gate_at_most(metrics.landmark_point_rmse_pixels, gates.max_landmark_rmse),
        embedding_cosine: gate_at_least(metrics.embedding_cosine, gates.min_embedding_cosine),
        enrolled_score_drift: optional_gate(
            gate_at_most(drift, gates.max_enrolled_score_drift),
            metrics.decision_testing_evaluated,
        ),
        threshold_flips: optional_gate(flips, metrics.decision_testing_evaluated),
        unmatched_faces: GateResult {
            comparator: Comparator::Equal,
            value: Some(GateValue::Count(metrics.unmatched_faces)),
            limit: GateValue::Count(0),
            evaluated_count: metrics.matched_faces + metrics.unmatched_faces,
            passed: Some(metrics.unmatched_faces == 0),
        },
    }
}

/// A gate that stands in nobody's way: it passed, or was not evaluated.
pub open spec fn is_open(gate: GateResult) -> bool {
    gate.passed != Some(false)
}

fn gate_is_open(gate: GateResult) -> (open: bool)
    ensures
        open == is_open(gate),
{
    match gate.passed {
        Some(passed) => passed,
        None => true,
    }
}

/// Whether every gate that has to be passed was.
pub open spec fn all_required(report: GateReport) -> bool {
    is_open(report.face_iou) && is_open(report.detector_score_drift) && is_open(
        report.landmark_rmse,
    ) && is_open(report.embedding_cosine) && is_open(report.unmatched_faces) && is_open(
        report.enrolled_score_drift,
    ) && is_open(report.threshold_flips)
}

pub fn all_required_gates_passed(report: &GateReport) -> (passed: bool)
    ensures
        passed == all_required(*report),
{
    gate_is_open(report.face_iou) && gate_is_open(report.detector_score_drift) && gate_is_open(
        report.landmark_rmse,
    ) && gate_is_open(report.embedding_cosine) && gate_is_open(report.unmatched_faces)
        && gate_is_open(report.enrolled_score_drift) && gate_is_open(report.threshold_flips)
}

/// A run passes only where faces were matched at all and none was left over,
/// every metric keeps its limit, and, where decisions are tested, some were and
/// none flipped.
pub proof fn passing_needs_evidence(gates: Gates, metrics: MetricReport)
    requires
        all_required(gates_of_metrics(gates, metrics)),
    ensures
        metrics.box_iou.count > 0,
        metrics.unmatched_faces == 0,
        at_most64(gates.min_face_iou, metrics.box_iou.min),
        at_most64(metrics.detector_score_abs_drift.max, gates.max_detector_score_drift),
        at_most64(metrics.landmark_point_rmse_pixels.max, gates.max_landmark_rmse),
        at_most64(gates.min_embedding_cosine, metrics.embedding_cosine.min),
        metrics.decision_testing_evaluated ==> metrics.enrolled_score_abs_drift.count > 0
            && metrics.threshold_flips == 0 && at_most64(
            metrics.enrolled_score_abs_drift.max,
            gates.max_enrolled_score_drift,
        ),
{
    let report = gates_of_metrics(gates, metrics);
    assert(is_open(report.face_iou) && is_open(report.threshold_flips));
}

/// What is published of the placements of a pair.
#[derive(Debug)]
pub struct PublicPairPlacement {
    pub pair: usize,
    pub fp32_registered_preference: String,
    pub fp16_registered_preference: String,
    pub fp32_detector: PublicPlacement,
    pub fp32_recognizer: PublicPlacement,
    pub fp16_detector: PublicPlacement,
    pub fp16_recognizer: PublicPlacement,
}

/// What is published of a placement is what it says, without its nodes.
pub open spec fn publishes(public: PublicPlacement, facts: PlacementFacts) -> bool {
    &&& public.mode == facts.mode
    &&& public.migraphx_executed_events == facts.migraphx_events
    &&& public.cpu_executed_events == facts.cpu_events
    &&& public.unknown_executed_events == facts.unknown_events
    &&& public.provider_set@.map_values(|name: String| name@) == facts.providers@
}

pub fn public_pair_placement(pair: usize, fp32: &WorkerOutput, fp16: &WorkerOutput) -> (placement:
    PublicPairPlacement)
    ensures
        publishes_pair(placement, pair as int, *fp32, *fp16),
{
    PublicPairPlacement {
        pair,
        fp32_registered_preference: fp32.registered_preference.as_str().to_owned(),
        fp16_registered_preference: fp16.registered_preference.as_str().to_owned(),
        fp32_detector: public_placement(&fp32.detector_placement),
        fp32_recognizer: public_placement(&fp32.recognizer_placement),
        fp16_detector: public_placement(&fp16.detector_placement),
        fp16_recognizer: public_placement(&fp16.recognizer_placement),
    }
}

/// What is published of where results come from.
#[derive(Debug)]
pub struct PublicProvenance {
    pub configured_gpu_target: String,
    pub hsa_override: String,
    pub hsa_override_source: &'static str,
    pub provider_provenance_match: bool,
    /// What the precisions were set to, by their names.
    pub precision_controls: Vec<(&'static str, &'static str)>,
    pub isolated_arm_caches: bool,
}

/// What is published of where results come from is what was configured.
pub open spec fn is_public_provenance(public: PublicProvenance, config: ParentConfig) -> bool {
    &&& public.configured_gpu_target@ == config.configured_gpu_target@
    &&& public.hsa_override@ == config.hsa_override@
    &&& public.hsa_override_source@ == "configured_cli_value_not_queried_hardware_identity"@
    &&& public.provider_provenance_match
    &&& public.precision_controls@.map_values(
        |control: (&'static str, &'static str)| (control.0@, control.1@),
    ) == seq![
        ("bf16_fp8_int8_exhaustive_dump"@, "disabled"@),
        ("fp16"@, "provider_api=true,environment=1"@),
        ("fp32"@, "provider_api=false,environment=0"@),
    ]
    &&& public.isolated_arm_caches
}

fn public_provenance(config: &ParentConfig) -> (public: PublicProvenance)
    ensures
        is_public_provenance(public, *config),
{
    let mut precision_controls: Vec<(&'static str, &'static str)> = Vec::new();
    precision_controls.push(("bf16_fp8_int8_exhaustive_dump", "disabled"));
    precision_controls.push(("fp16", "provider_api=true,environment=1"));
    precision_controls.push(("fp32", "provider_api=false,environment=0"));
    assert(precision_controls@.map_values(
        |control: (&'static str, &'static str)| (control.0@, control.1@),
    ) =~= seq![
        ("bf16_fp8_int8_exhaustive_dump"@, "disabled"@),
        ("fp16"@, "provider_api=true,environment=1"@),
        ("fp32"@, "provider_api=false,environment=0"@),
    ]);
    PublicProvenance {
        configured_gpu_target: config.configured_gpu_target.as_str().to_owned(),
        hsa_override: config.hsa_override.as_str().to_owned(),
        hsa_override_source: "configured_cli_value_not_queried_hardware_identity",
        provider_provenance_match: true,
        precision_controls,
        isolated_arm_caches: true,
    }
}

/// What an experiment has found.
#[derive(Debug)]
pub struct Report {
    pub protocol_version: u32,
    pub run_id: String,
    pub evidence_scope: &'static str,
    pub fixture_count: usize,
    pub pair_count: usize,
    pub placement_policy: &'static str,
    pub provenance: PublicProvenance,
    pub placement: Vec<PublicPairPlacement>,
    pub gates: GateReport,
    pub metrics: MetricReport,
    pub fp32_timings: TimingReport,
    pub fp16_timings: TimingReport,
    pub paired_complete_fixture_delta_ms: Distribution,
    pub parent_matching_and_comparison_ms: Distribution,
    /// For each pair, its arms in the order in which they ran.
    pub process_order: Vec<[Precision; 2]>,
    pub cache_generation_process_ms: Distribution,
    pub loaded_cache_measurement_process_ms: Distribution,
    pub cache_artifact_unchanged: bool,
    pub all_required_gates_passed: bool,
}

fn order_of_pairs(count: usize) -> (process_order: Vec<[Precision; 2]>)
    ensures
        are_pair_orders(process_order@, count as nat),
{
    let mut process_order: Vec<[Precision; 2]> = Vec::new();
    let mut index: usize = 0;
    while index < count
        invariant
            index <= count,
            are_pair_orders(process_order@, index as nat),
        decreases count - index,
    {
        process_order.push(pair_order(index));
        index = index + 1;
    }
    process_order
}

/// The orders of the first pairs.
pub open spec fn are_pair_orders(process_order: Seq<[Precision; 2]>, count: nat) -> bool {
    process_order.len() == count && forall|i: int|
        0 <= i < count ==> (#[trigger] process_order[i])@ == seq![
            arm_at(i as nat, 0),
            arm_at(i as nat, 1),
        ]
}

/// What is published of the placements of a pair is what its arms found.
pub open spec fn publishes_pair(
    placement: PublicPairPlacement,
    pair: int,
    fp32: WorkerOutput,
    fp16: WorkerOutput,
) -> bool {
    &&& placement.pair == pair
    &&& placement.fp32_registered_preference@ == fp32.registered_preference@
    &&& placement.fp16_registered_preference@ == fp16.registered_preference@
    &&& publishes(placement.fp32_detector, fp32.detector_placement)
    &&& publishes(placement.fp32_recognizer, fp32.recognizer_placement)
    &&& publishes(placement.fp16_detector, fp16.detector_placement)
    &&& publishes(placement.fp16_recognizer, fp16.recognizer_placement)
}

/// Every pair has its placements published, in order.
pub open spec fn publishes_all(
    placement: Seq<PublicPairPlacement>,
    outputs: Seq<PairOutputs>,
    count: nat,
) -> bool {
    placement.len() == count && forall|i: int|
        0 <= i < count ==> publishes_pair(
            #[trigger] placement[i],
            i,
            outputs[i].fp32->0,
            outputs[i].fp16->0,
        )
}

fn publish_placements(outputs: &Vec<PairOutputs>) -> (placement: Vec<PublicPairPlacement>)
    requires
        forall|i: int|
            0 <= i < outputs@.len() ==> (#[trigger] outputs@[i]).fp32 is Some && outputs@[i].fp16
                is Some,
    ensures
        publishes_all(placement@, outputs@, outputs@.len()),
{
    let mut placement: Vec<PublicPairPlacement> = Vec::new();
    let mut index: usize = 0;
    while index < outputs.len()
        invariant
            index <= outputs@.len(),
            forall|i: int|
                0 <= i < outputs@.len() ==> (#[trigger] outputs@[i]).fp32 is Some
                    && outputs@[i].fp16 is Some,
            publishes_all(placement@, outputs@, index as nat),
        decreases outputs.len() - index,
    {
        assert(outputs@[index as int].fp32 is Some);
        match (&outputs[index].fp32, &outputs[index].fp16) {
            (Some(fp32), Some(fp16)) => {
                placement.push(public_pair_placement(index, fp32, fp16));
            },
            _ => {},
        }
        index = index + 1;
    }
    placement
}

/// `elapsed` can say that it was `span` from one reading of the clock to another.
pub open spec fn is_elapsed<E: Fn(u64, u64) -> u64>(
    elapsed: E,
    time: (u64, u64),
    span: u64,
) -> bool {
    call_ensures(elapsed, (time.0, time.1), span)
}

/// `values` are how long it was from the first to the second reading of each of
/// `times`.
pub open spec fn are_spans<E: Fn(u64, u64) -> u64>(
    values: Seq<u64>,
    times: Seq<(u64, u64)>,
    elapsed: E,
) -> bool {
    values.len() == times.len() && forall|i: int|
        0 <= i < values.len() ==> is_elapsed(elapsed, times[i], #[trigger] values[i])
}

fn spans<E: Fn(u64, u64) -> u64>(times: &Vec<(u64, u64)>, elapsed: &E) -> (found: Vec<u64>)
    requires
        forall|a: u64, b: u64| #[trigger] call_requires(*elapsed, (a, b)),
    ensures
        are_spans(found@, times@, *elapsed),
{
    let mut found: Vec<u64> = Vec::new();
    let mut index: usize = 0;
    while index < times.len()
        invariant
            index <= times@.len(),
            found@.len() == index,
            forall|a: u64, b: u64| #[trigger] call_requires(*elapsed, (a, b)),
            forall|i: int|
                0 <= i < index ==> is_elapsed(*elapsed, times@[i], #[trigger] found@[i]),
        decreases times.len() - index,
    {
        let (started, ended) = times[index];
        let span: u64 = elapsed(started, ended);
        assert(is_elapsed(*elapsed, times@[index as int], span));
        found.push(span);
        index = index + 1;
    }
    found
}

/// A distribution is that of so many spans, each from one reading of the clock to
/// another.
pub open spec fn is_distribution_of_spans<
    M: Fn(&[u64]) -> u64,
    H: Fn(u64, u64) -> u64,
    K: Fn() -> u64,
    E: Fn(u64, u64) -> u64,
>(
    found: Distribution,
    count: nat,
    averages: Averages<M, H>,
    clock: K,
    elapsed: E,
) -> bool {
    exists|values: Seq<u64>, times: Seq<(u64, u64)>|
        {
            &&& times.len() == count
            &&& forall|i: int| 0 <= i < times.len() ==> is_timed(clock, #[trigger] times[i])
            &&& #[trigger] are_spans(values, times, elapsed)
            &&& is_distribution(found, values, averages)
        }
}

/// A report says what was run, what was compared and how the gates were passed.
/// How long comparing took is what the clock says.
pub open spec fn is_report<
    M: Fn(&[u64]) -> u64,
    H: Fn(u64, u64) -> u64,
    S: Fn(u64, u64) -> u64,
    K: Fn() -> u64,
    E: Fn(u64, u64) -> u64,
>(
    report: Report,
    config: ParentConfig,
    outputs: Seq<PairOutputs>,
    fixture_count: nat,
    tally: Tally,
    decisions_evaluated: bool,
    generation_ms: Seq<u64>,
    measurement_ms: Seq<u64>,
    run_id: Seq<char>,
    averages: Averages<M, H>,
    clock: K,
    time_tools: TimeTools<S, E>,
) -> bool {
    &&& report.protocol_version == PROTOCOL_VERSION
    &&& report.run_id@ == run_id
    &&& report.evidence_scope@ == "paired numerical drift only; not FAR/FRR evidence"@
    &&& report.fixture_count == fixture_count
    &&& report.pair_count == outputs.len()
    &&& report.placement_policy@ == (if config.allow_mixed {
        "mixed_allowed"@
    } else {
        "all_migraphx_required"@
    })
    &&& is_public_provenance(report.provenance, config)
    &&& publishes_all(report.placement@, outputs, outputs.len())
    &&& is_metric_report(report.metrics, tally, decisions_evaluated, averages)
    &&& report.gates == gates_of_metrics(config.gates, report.metrics)
    &&& is_timing_report(report.fp32_timings, outputs, Precision::Fp32, averages)
    &&& is_timing_report(report.fp16_timings, outputs, Precision::Fp16, averages)
    &&& forall|difference: spec_fn(u64, u64) -> u64| #[trigger]
        subtracts(time_tools.minus, difference) ==> is_distribution(
            report.paired_complete_fixture_delta_ms,
            fixture_deltas(outputs, difference, outputs.len()),
            averages,
        )
    &&& is_distribution_of_spans(
        report.parent_matching_and_comparison_ms,
        compared_records(outputs, outputs.len()),
        averages,
        clock,
        time_tools.elapsed,
    )
    &&& are_pair_orders(report.process_order@, outputs.len())
    &&& is_distribution(report.cache_generation_process_ms, generation_ms, averages)
    &&& is_distribution(report.loaded_cache_measurement_process_ms, measurement_ms, averages)
    &&& report.cache_artifact_unchanged
    &&& report.all_required_gates_passed == all_required(report.gates)
}

/// Compares the arms of all pairs and reports what was found.
pub fn build_report<
    F: Fn(u64, u64) -> u64,
    G: Fn([i32; 4], [i32; 4]) -> u64,
    D: Fn(u32, u32) -> u64,
    R: Fn(&[u32], &[u32]) -> u64,
    U: Fn(&[u32]) -> bool,
    C: Fn(&[u32], &[u32]) -> Option<u64>,
    K: Fn() -> u64,
    M: Fn(&[u64]) -> u64,
    H: Fn(u64, u64) -> u64,
    S: Fn(u64, u64) -> u64,
    E: Fn(u64, u64) -> u64,
>(
    config: &ParentConfig,
    classes: &Vec<FixtureClass>,
    decisions_evaluated: bool,
    outputs: &Vec<PairOutputs>,
    generation_ms: &Vec<u64>,
    measurement_ms: &Vec<u64>,
    run_id: &str,
    tools: &FaceTools<F, G, D, R, U, C>,
    clock: &K,
    averages: &Averages<M, H>,
    time_tools: &TimeTools<S, E>,
) -> (report: Result<Report, RecordError>)
    requires
        can_compare(*tools),
        call_requires(*clock, ()),
        can_average(*averages),
        can_time(*time_tools),
        outputs@.len() <= 16,
        classes@.len() <= 32,
        forall|i: int|
            0 <= i < outputs@.len() ==> are_comparable(#[trigger] outputs@[i], classes@.len()),
    ensures
        forall|matcher: Matcher| #[trigger]
            realizes(*tools, config.gates.min_face_iou, matcher) ==> match with_pairs(
                nothing_compared(),
                outputs@,
                config.allow_mixed,
                classes@,
                matcher,
                decisions_evaluated,
                0,
            ) {
                Err(error) => report == Err::<Report, RecordError>(error),
                Ok(tally) => report matches Ok(found) && is_report(
                    found,
                    *config,
                    outputs@,
                    classes@.len(),
                    tally,
                    decisions_evaluated,
                    generation_ms@,
                    measurement_ms@,
                    run_id@,
                    *averages,
                    *clock,
                    *time_tools,
                ),
            },
{
    let comparison = match compare_outputs(
        outputs,
        config.allow_mixed,
        classes,
        config.gates.min_face_iou,
        tools,
        clock,
        decisions_evaluated,
    ) {
        Ok(comparison) => comparison,
        Err(error) => {
            return Err(error);
        },
    };
    let metrics = metric_report(&comparison, decisions_evaluated, averages);
    let gates = gate_report(config.gates, metrics);
    let deltas = collect_deltas(outputs, &time_tools.minus);
    let matching = spans(&comparison.times, &time_tools.elapsed);
    let matching_ms = distribution(&matching, averages);
    assert(is_distribution(matching_ms, matching@, *averages));
    assert(are_spans(matching@, comparison.times@, time_tools.elapsed));
    let delta_ms = distribution(&deltas, averages);
    assert(is_distribution(delta_ms, deltas@, *averages));
    let report = Report {
        protocol_version: PROTOCOL_VERSION,
        run_id: run_id.to_owned(),
        evidence_scope: "paired numerical drift only; not FAR/FRR evidence",
        fixture_count: classes.len(),
        pair_count: outputs.len(),
        placement_policy: if config.allow_mixed {
            "mixed_allowed"
        } else {
            "all_migraphx_required"
        },
        provenance: public_provenance(config),
        placement: publish_placements(outputs),
        gates,
        metrics,
        fp32_timings: timing_report(outputs, Precision::Fp32, averages),
        fp16_timings: timing_report(outputs, Precision::Fp16, averages),
        paired_complete_fixture_delta_ms: delta_ms,
        parent_matching_and_comparison_ms: matching_ms,
        process_order: order_of_pairs(outputs.len()),
        cache_generation_process_ms: distribution(generation_ms, averages),
        loaded_cache_measurement_process_ms: distribution(measurement_ms, averages),
        cache_artifact_unchanged: true,
        all_required_gates_passed: all_required_gates_passed(&gates),
    };
    Ok(report)
}


/// No value lies below a limit.
pub open spec fn none_below(values: Seq<u64>, limit: u64) -> bool {
    forall|i: int| 0 <= i < values.len() ==> !less64(#[trigger] values[i], limit)
}

/// No value lies above a limit.
pub open spec fn none_above(values: Seq<u64>, limit: u64) -> bool {
    forall|i: int| 0 <= i < values.len() ==> !less64(limit, #[trigger] values[i])
}

/// Every value is a number that reaches a limit.
pub open spec fn all_reach(values: Seq<u64>, limit: u64) -> bool {
    forall|i: int| 0 <= i < values.len() ==> at_most64(limit, #[trigger] values[i])
}

/// Every value is a number that keeps a limit.
pub open spec fn all_keep(values: Seq<u64>, limit: u64) -> bool {
    forall|i: int| 0 <= i < values.len() ==> at_most64(#[trigger] values[i], limit)
}

proof fn gates_judge_every_value(
    found: Distribution,
    values: Seq<u64>,
    averaging: Averaging,
    limit: u64,
)
    requires
        summarizes(found, values, averaging),
        values.len() <= usize::MAX,
    ensures
        found.count == values.len(),
        floor_gate(found, limit).passed == Some(true) ==> values.len() > 0 && none_below(
            values,
            limit,
        ),
        values.len() > 0 && all_reach(values, limit) ==> floor_gate(found, limit).passed == Some(
            true,
        ),
        ceiling_gate(found, limit).passed == Some(true) ==> values.len() > 0 && none_above(
            values,
            limit,
        ),
        values.len() > 0 && all_keep(values, limit) ==> ceiling_gate(found, limit).passed == Some(
            true,
        ),
{
    if values.len() > 0 {
        extremes_enclose_the_values(found, values, averaging);
        let least = values.index_of(found.min);
        let most = values.index_of(found.max);
        assert(values[least] == found.min && values[most] == found.max);
    } else {
        let sorted = distributions_come_of_sorted_values(found, values, averaging);
    }
}

/// The drift of every face that was scored is among the drifts, and nothing else is.
proof fn drifts_are_those_of_faces(faces: Seq<ComparedFaces>)
    ensures
        enrolled_drifts(faces).len() <= faces.len(),
        forall|n: int|
            0 <= n < faces.len() && (#[trigger] faces[n]).enrolled_drift is Some
                ==> enrolled_drifts(faces).contains(faces[n].enrolled_drift->0),
        forall|i: int|
            0 <= i < enrolled_drifts(faces).len() ==> exists|n: int|
                0 <= n < faces.len() && (#[trigger] faces[n]).enrolled_drift == Some(
                    #[trigger] enrolled_drifts(faces)[i],
                ),
    decreases faces.len(),
{
    if faces.len() > 0 {
        let before = faces.drop_last();
        drifts_are_those_of_faces(before);
        let drifts = enrolled_drifts(before);
        let all = enrolled_drifts(faces);
        assert forall|n: int|
            0 <= n < faces.len() && (#[trigger] faces[n]).enrolled_drift is Some implies all.contains(
            faces[n].enrolled_drift->0,
        ) by {
            if n < before.len() {
                assert(before[n] == faces[n]);
                let i = drifts.index_of(faces[n].enrolled_drift->0);
                assert(all[i] == drifts[i]);
            } else {
                assert(all.last() == faces[n].enrolled_drift->0);
            }
        }
        assert forall|i: int| 0 <= i < all.len() implies exists|n: int|
            0 <= n < faces.len() && (#[trigger] faces[n]).enrolled_drift == Some(
                #[trigger] all[i],
            ) by {
            if i < drifts.len() {
                let n = choose|n: int|
                    0 <= n < before.len() && (#[trigger] before[n]).enrolled_drift == Some(
                        drifts[i],
                    );
                assert(faces[n] == before[n]);
            } else {
                assert(faces[faces.len() - 1].enrolled_drift == Some(all[i]));
            }
        }
    }
}

/// A report that passes judges every face that was compared: there is one, none was
/// left over, none overlaps less, is less alike, or drifts further than its gate
/// allows, and where decisions were tested, some face was scored, no score drifted
/// further than allowed and no decision flipped.
pub proof fn passing_reports_judge_every_face<
    M: Fn(&[u64]) -> u64,
    H: Fn(u64, u64) -> u64,
>(
    gates: Gates,
    metrics: MetricReport,
    tally: Tally,
    decisions_evaluated: bool,
    averages: Averages<M, H>,
    averaging: Averaging,
)
    requires
        is_metric_report(metrics, tally, decisions_evaluated, averages),
        averages_as(averages, averaging),
        tally.faces.len() <= usize::MAX,
        all_required(gates_of_metrics(gates, metrics)),
    ensures
        tally.faces.len() > 0,
        tally.unmatched == 0,
        forall|n: int|
            0 <= n < tally.faces.len() ==> !less64(
                (#[trigger] tally.faces[n]).iou,
                gates.min_face_iou,
            ) && !less64(gates.max_detector_score_drift, tally.faces[n].score_drift) && !less64(
                gates.max_landmark_rmse,
                tally.faces[n].landmark_rmse,
            ) && !less64(tally.faces[n].cosine, gates.min_embedding_cosine),
        decisions_evaluated ==> {
            &&& tally.flips == 0
            &&& exists|n: int|
                0 <= n < tally.faces.len() && (#[trigger] tally.faces[n]).enrolled_drift is Some
            &&& forall|n: int|
                0 <= n < tally.faces.len() && (#[trigger] tally.faces[n]).enrolled_drift is Some
                    ==> !less64(gates.max_enrolled_score_drift, tally.faces[n].enrolled_drift->0)
        },
{
    let overlaps = tally.faces.map_values(|face: ComparedFaces| face.iou);
    let drifts = tally.faces.map_values(|face: ComparedFaces| face.score_drift);
    let errors = tally.faces.map_values(|face: ComparedFaces| face.landmark_rmse);
    let cosines = tally.faces.map_values(|face: ComparedFaces| face.cosine);
    let enrolled = enrolled_drifts(tally.faces);
    drifts_are_those_of_faces(tally.faces);
    gates_judge_every_value(metrics.box_iou, overlaps, averaging, gates.min_face_iou);
    gates_judge_every_value(
        metrics.detector_score_abs_drift,
        drifts,
        averaging,
        gates.max_detector_score_drift,
    );
    gates_judge_every_value(
        metrics.landmark_point_rmse_pixels,
        errors,
        averaging,
        gates.max_landmark_rmse,
    );
    gates_judge_every_value(
        metrics.embedding_cosine,
        cosines,
        averaging,
        gates.min_embedding_cosine,
    );
    gates_judge_every_value(
        metrics.enrolled_score_abs_drift,
        enrolled,
        averaging,
        gates.max_enrolled_score_drift,
    );
    passing_needs_evidence(gates, metrics);
    assert forall|n: int| 0 <= n < tally.faces.len() implies !less64(
        (#[trigger] tally.faces[n]).iou,
        gates.min_face_iou,
    ) && !less64(gates.max_detector_score_drift, tally.faces[n].score_drift) && !less64(
        gates.max_landmark_rmse,
        tally.faces[n].landmark_rmse,
    ) && !less64(tally.faces[n].cosine, gates.min_embedding_cosine) by {
        assert(overlaps[n] == tally.faces[n].iou && drifts[n] == tally.faces[n].score_drift);
        assert(errors[n] == tally.faces[n].landmark_rmse && cosines[n] == tally.faces[n].cosine);
    }
    if decisions_evaluated {
        assert(enrolled.len() > 0);
        let n = choose|n: int|
            0 <= n < tally.faces.len() && (#[trigger] tally.faces[n]).enrolled_drift == Some(
                enrolled[0],
            );
        assert(tally.faces[n].enrolled_drift is Some);
        assert forall|n: int|
            0 <= n < tally.faces.len() && (#[trigger] tally.faces[n]).enrolled_drift
                is Some implies !less64(
            gates.max_enrolled_score_drift,
            tally.faces[n].enrolled_drift->0,
        ) by {
            let i = enrolled.index_of(tally.faces[n].enrolled_drift->0);
            assert(enrolled[i] == tally.faces[n].enrolled_drift->0);
        }
    }
}

/// A report passes where it should: faces were compared and none was left over, every
/// face keeps every gate, and where decisions were tested, some face was scored,
/// every score keeps its gate and no decision flipped.
pub proof fn faces_that_keep_the_gates_pass<M: Fn(&[u64]) -> u64, H: Fn(u64, u64) -> u64>(
    gates: Gates,
    metrics: MetricReport,
    tally: Tally,
    decisions_evaluated: bool,
    averages: Averages<M, H>,
    averaging: Averaging,
)
    requires
        is_metric_report(metrics, tally, decisions_evaluated, averages),
        averages_as(averages, averaging),
        0 < tally.faces.len() <= usize::MAX,
        tally.unmatched == 0,
        forall|n: int|
            0 <= n < tally.faces.len() ==> at_most64(
                gates.min_face_iou,
                (#[trigger] tally.faces[n]).iou,
            ) && at_most64(tally.faces[n].score_drift, gates.max_detector_score_drift) && at_most64(
                tally.faces[n].landmark_rmse,
                gates.max_landmark_rmse,
            ) && at_most64(gates.min_embedding_cosine, tally.faces[n].cosine),
        decisions_evaluated ==> {
            &&& tally.flips == 0
            &&& exists|n: int|
                0 <= n < tally.faces.len() && (#[trigger] tally.faces[n]).enrolled_drift is Some
            &&& forall|n: int|
                0 <= n < tally.faces.len() && (#[trigger] tally.faces[n]).enrolled_drift is Some
                    ==> at_most64(
                    tally.faces[n].enrolled_drift->0,
                    gates.max_enrolled_score_drift,
                )
        },
    ensures
        all_required(gates_of_metrics(gates, metrics)),
{
    let overlaps = tally.faces.map_values(|face: ComparedFaces| face.iou);
    let drifts = tally.faces.map_values(|face: ComparedFaces| face.score_drift);
    let errors = tally.faces.map_values(|face: ComparedFaces| face.landmark_rmse);
    let cosines = tally.faces.map_values(|face: ComparedFaces| face.cosine);
    let enrolled = enrolled_drifts(tally.faces);
    drifts_are_those_of_faces(tally.faces);
    assert forall|n: int| 0 <= n < tally.faces.len() implies at_most64(
        gates.min_face_iou,
        #[trigger] overlaps[n],
    ) by {
        assert(overlaps[n] == tally.faces[n].iou);
    }
    assert forall|n: int| 0 <= n < tally.faces.len() implies at_most64(
        #[trigger] drifts[n],
        gates.max_detector_score_drift,
    ) by {
        assert(drifts[n] == tally.faces[n].score_drift);
    }
    assert forall|n: int| 0 <= n < tally.faces.len() implies at_most64(
        #[trigger] errors[n],
        gates.max_landmark_rmse,
    ) by {
        assert(errors[n] == tally.faces[n].landmark_rmse);
    }
    assert forall|n: int| 0 <= n < tally.faces.len() implies at_most64(
        gates.min_embedding_cosine,
        #[trigger] cosines[n],
    ) by {
        assert(cosines[n] == tally.faces[n].cosine);
    }
    gates_judge_every_value(metrics.box_iou, overlaps, averaging, gates.min_face_iou);
    gates_judge_every_value(
        metrics.detector_score_abs_drift,
        drifts,
        averaging,
        gates.max_detector_score_drift,
    );
    gates_judge_every_value(
        metrics.landmark_point_rmse_pixels,
        errors,
        averaging,
        gates.max_landmark_rmse,
    );
    gates_judge_every_value(
        metrics.embedding_cosine,
        cosines,
        averaging,
        gates.min_embedding_cosine,
    );
    gates_judge_every_value(
        metrics.enrolled_score_abs_drift,
        enrolled,
        averaging,
        gates.max_enrolled_score_drift,
    );
    if decisions_evaluated {
        let n = choose|n: int|
            0 <= n < tally.faces.len() && (#[trigger] tally.faces[n]).enrolled_drift is Some;
        assert(enrolled.contains(tally.faces[n].enrolled_drift->0));
        assert(enrolled.len() > 0);
        assert forall|i: int| 0 <= i < enrolled.len() implies at_most64(
            #[trigger] enrolled[i],
            gates.max_enrolled_score_drift,
        ) by {
            let k = choose|k: int|
                0 <= k < tally.faces.len() && (#[trigger] tally.faces[k]).enrolled_drift == Some(
                    enrolled[i],
                );
            assert(tally.faces[k].enrolled_drift is Some);
        }
    }
    let report = gates_of_metrics(gates, metrics);
    assert(is_open(report.face_iou) && is_open(report.detector_score_drift));
    assert(is_open(report.landmark_rmse) && is_open(report.embedding_cosine));
    assert(is_open(report.unmatched_faces));
    assert(is_open(report.enrolled_score_drift) && is_open(report.threshold_flips));
}


/// What came of the half-precision or the single-precision arm of a pair.
pub open spec fn outcome_of(outputs: PairOutputs, half: bool) -> WorkerOutput {
    if half {
        outputs.fp16->0
    } else {
        outputs.fp32->0
    }
}

/// How many records the half-precision or the single-precision arm has in the pairs
/// before one.
pub open spec fn records_before(outputs: Seq<PairOutputs>, half: bool, pair: nat) -> nat
    decreases pair,
{
    if pair == 0 {
        0
    } else {
        let outcome = outcome_of(outputs[pair - 1], half);
        records_before(outputs, half, (pair - 1) as nat) + outcome.records@.len()
    }
}

/// One value for every record of an arm in the first pairs, pair after pair and in each
/// pair record after record.
pub open spec fn times_every_record(
    times: Seq<u64>,
    outputs: Seq<PairOutputs>,
    half: bool,
    time: spec_fn(ImageRecord) -> u64,
    count: nat,
) -> bool {
    &&& times.len() == records_before(outputs, half, count)
    &&& forall|pair: int, n: int|
        #![trigger outputs[pair], time(outcome_of(outputs[pair], half).records@[n])]
        0 <= pair < count && 0 <= n < outcome_of(outputs[pair], half).records@.len()
            ==> times[records_before(outputs, half, pair as nat) + n] == time(
            outcome_of(outputs[pair], half).records@[n],
        )
}

proof fn record_times_are_in_order(records: Seq<ImageRecord>, part: TimedPart, count: nat)
    ensures
        record_times(records, part, count).len() == count,
        forall|n: int|
            0 <= n < count ==> #[trigger] record_times(records, part, count)[n] == time_of(
                records[n],
                part,
            ),
    decreases count,
{
    if count > 0 {
        record_times_are_in_order(records, part, (count - 1) as nat);
    }
}

proof fn fewer_records_come_before(outputs: Seq<PairOutputs>, half: bool, pair: nat, count: nat)
    requires
        pair < count,
    ensures
        records_before(outputs, half, pair) + outcome_of(outputs[pair as int], half).records@.len()
            <= records_before(outputs, half, count),
    decreases count,
{
    if pair < count - 1 {
        fewer_records_come_before(outputs, half, pair, (count - 1) as nat);
    }
}

proof fn times_of_records_are_those_of_the_arm(
    times: Seq<u64>,
    outputs: Seq<PairOutputs>,
    half: bool,
    part: TimedPart,
    time: spec_fn(ImageRecord) -> u64,
    count: nat,
)
    requires
        count <= outputs.len(),
        forall|i: int|
            0 <= i < outputs.len() ==> (#[trigger] outputs[i]).fp32 is Some && outputs[i].fp16
                is Some,
        forall|record: ImageRecord| #[trigger] time(record) == time_of(record, part),
        times_every_record(times, outputs, half, time, count),
    ensures
        times == arm_times(
            outputs,
            if half {
                Precision::Fp16
            } else {
                Precision::Fp32
            },
            part,
            count,
        ),
    decreases count,
{
    let precision = if half {
        Precision::Fp16
    } else {
        Precision::Fp32
    };
    if count > 0 {
        let last = (count - 1) as nat;
        let outcome = outcome_of(outputs[last as int], half);
        let start = records_before(outputs, half, last) as int;
        let before = times.take(start);
        assert(times_every_record(before, outputs, half, time, last)) by {
            assert forall|pair: int, n: int|
                #![trigger outputs[pair], time(outcome_of(outputs[pair], half).records@[n])]
                0 <= pair < last && 0 <= n < outcome_of(
                    outputs[pair],
                    half,
                ).records@.len() implies before[records_before(outputs, half, pair as nat) + n]
                == time(
                outcome_of(outputs[pair], half).records@[n],
            ) by {
                fewer_records_come_before(outputs, half, pair as nat, last);
            }
        }
        times_of_records_are_those_of_the_arm(before, outputs, half, part, time, last);
        record_times_are_in_order(outcome.records@, part, outcome.records@.len());
        let own = record_times(outcome.records@, part, outcome.records@.len());
        assert(arm_of(outputs[last as int], precision) == Some(outcome));
        assert(times =~= before + own) by {
            assert forall|n: int| 0 <= n < own.len() implies times[start + n] == #[trigger] own[n] by {
                assert(time(outcome.records@[n]) == time_of(outcome.records@[n], part));
            }
            assert forall|i: int| 0 <= i < times.len() implies times[i] == (before + own)[i] by {
                if i >= start {
                    assert(own[i - start] == times[start + (i - start)]);
                }
            }
        }
    } else {
        assert(times =~= Seq::empty());
    }
}

/// Each time in a report is that of its arm and of its part of the work: the decoding
/// times of the report are the decoding times of all records of the arm, and so on for
/// detection, recognition, matching and the whole.
pub proof fn timings_are_those_of_the_arm<M: Fn(&[u64]) -> u64, H: Fn(u64, u64) -> u64>(
    report: TimingReport,
    outputs: Seq<PairOutputs>,
    half: bool,
    averages: Averages<M, H>,
    decoding: Seq<u64>,
    detection: Seq<u64>,
    recognition: Seq<u64>,
    matching: Seq<u64>,
    complete: Seq<u64>,
)
    requires
        is_timing_report(
            report,
            outputs,
            if half {
                Precision::Fp16
            } else {
                Precision::Fp32
            },
            averages,
        ),
        forall|i: int|
            0 <= i < outputs.len() ==> (#[trigger] outputs[i]).fp32 is Some && outputs[i].fp16
                is Some,
        times_every_record(
            decoding,
            outputs,
            half,
            |record: ImageRecord| record.decode_ms,
            outputs.len(),
        ),
        times_every_record(
            detection,
            outputs,
            half,
            |record: ImageRecord| record.detector_pipeline_ms,
            outputs.len(),
        ),
        times_every_record(
            recognition,
            outputs,
            half,
            |record: ImageRecord| record.recognizer_pipeline_ms,
            outputs.len(),
        ),
        times_every_record(
            matching,
            outputs,
            half,
            |record: ImageRecord| record.enrolled_matching_ms,
            outputs.len(),
        ),
        times_every_record(
            complete,
            outputs,
            half,
            |record: ImageRecord| record.complete_fixture_ms,
            outputs.len(),
        ),
    ensures
        is_distribution(report.image_decode_ms, decoding, averages),
        is_distribution(report.detector_preprocess_run_postprocess_ms, detection, averages),
        is_distribution(report.recognizer_alignment_run_ms, recognition, averages),
        is_distribution(report.enrolled_matching_ms, matching, averages),
        is_distribution(report.complete_fixture_ms, complete, averages),
{
    let count = outputs.len();
    times_of_records_are_those_of_the_arm(
        decoding,
        outputs,
        half,
        TimedPart::Decode,
        |record: ImageRecord| record.decode_ms,
        count,
    );
    times_of_records_are_those_of_the_arm(
        detection,
        outputs,
        half,
        TimedPart::Detector,
        |record: ImageRecord| record.detector_pipeline_ms,
        count,
    );
    times_of_records_are_those_of_the_arm(
        recognition,
        outputs,
        half,
        TimedPart::Recognizer,
        |record: ImageRecord| record.recognizer_pipeline_ms,
        count,
    );
    times_of_records_are_those_of_the_arm(
        matching,
        outputs,
        half,
        TimedPart::EnrolledMatching,
        |record: ImageRecord| record.enrolled_matching_ms,
        count,
    );
    times_of_records_are_those_of_the_arm(
        complete,
        outputs,
        half,
        TimedPart::Complete,
        |record: ImageRecord| record.complete_fixture_ms,
        count,
    );
}

proof fn record_deltas_are_in_order(
    left: Seq<ImageRecord>,
    right: Seq<ImageRecord>,
    difference: spec_fn(u64, u64) -> u64,
    count: nat,
)
    ensures
        record_deltas(left, right, difference, count).len() == count,
        forall|n: int|
            0 <= n < count ==> #[trigger] record_deltas(left, right, difference, count)[n]
                == difference(right[n].complete_fixture_ms, left[n].complete_fixture_ms),
    decreases count,
{
    if count > 0 {
        record_deltas_are_in_order(left, right, difference, (count - 1) as nat);
    }
}

/// The differences in time follow the pairs: in each pair whose arms have as many
/// records, there is one for every record, what the half-precision arm took less what
/// the single-precision arm took, after those of the pairs before.
pub proof fn deltas_are_half_less_single(
    outputs: Seq<PairOutputs>,
    difference: spec_fn(u64, u64) -> u64,
    pair: nat,
    n: int,
)
    requires
        pair < outputs.len(),
        forall|i: int|
            0 <= i < outputs.len() ==> (#[trigger] outputs[i]).fp32 is Some && outputs[i].fp16
                is Some && outputs[i].fp32->0.records@.len() == outputs[i].fp16->0.records@.len(),
        0 <= n < outputs[pair as int].fp32->0.records@.len(),
    ensures
        fixture_deltas(outputs, difference, outputs.len()).len() == records_before(
            outputs,
            true,
            outputs.len(),
        ),
        fixture_deltas(outputs, difference, outputs.len())[records_before(outputs, true, pair) + n]
            == difference(
            outputs[pair as int].fp16->0.records@[n].complete_fixture_ms,
            outputs[pair as int].fp32->0.records@[n].complete_fixture_ms,
        ),
{
    deltas_up_to(outputs, difference, pair, n, outputs.len());
}

proof fn deltas_have_a_length(
    outputs: Seq<PairOutputs>,
    difference: spec_fn(u64, u64) -> u64,
    count: nat,
)
    requires
        count <= outputs.len(),
        forall|i: int|
            0 <= i < outputs.len() ==> (#[trigger] outputs[i]).fp32 is Some && outputs[i].fp16
                is Some && outputs[i].fp32->0.records@.len() == outputs[i].fp16->0.records@.len(),
    ensures
        fixture_deltas(outputs, difference, count).len() == records_before(outputs, true, count),
    decreases count,
{
    if count > 0 {
        let last = outputs[count - 1];
        deltas_have_a_length(outputs, difference, (count - 1) as nat);
        record_deltas_are_in_order(
            last.fp32->0.records@,
            last.fp16->0.records@,
            difference,
            shared_records(last),
        );
    }
}

proof fn deltas_up_to(
    outputs: Seq<PairOutputs>,
    difference: spec_fn(u64, u64) -> u64,
    pair: nat,
    n: int,
    count: nat,
)
    requires
        pair < count <= outputs.len(),
        forall|i: int|
            0 <= i < outputs.len() ==> (#[trigger] outputs[i]).fp32 is Some && outputs[i].fp16
                is Some && outputs[i].fp32->0.records@.len() == outputs[i].fp16->0.records@.len(),
        0 <= n < outputs[pair as int].fp32->0.records@.len(),
    ensures
        fixture_deltas(outputs, difference, count).len() == records_before(outputs, true, count),
        fixture_deltas(outputs, difference, count)[records_before(outputs, true, pair) + n]
            == difference(
            outputs[pair as int].fp16->0.records@[n].complete_fixture_ms,
            outputs[pair as int].fp32->0.records@[n].complete_fixture_ms,
        ),
    decreases count,
{
    let last = outputs[count - 1];
    deltas_have_a_length(outputs, difference, count);
    deltas_have_a_length(outputs, difference, (count - 1) as nat);
    record_deltas_are_in_order(
        last.fp32->0.records@,
        last.fp16->0.records@,
        difference,
        shared_records(last),
    );
    if pair < count - 1 {
        deltas_up_to(outputs, difference, pair, n, (count - 1) as nat);
        fewer_records_come_before(outputs, true, pair, (count - 1) as nat);
    }
}

/// Each number in a report is that of its measure, over all faces that were compared;
/// the drift of scores is over those that were scored.
pub proof fn metrics_are_those_of_the_faces<M: Fn(&[u64]) -> u64, H: Fn(u64, u64) -> u64>(
    metrics: MetricReport,
    tally: Tally,
    decisions_evaluated: bool,
    averages: Averages<M, H>,
    overlaps: Seq<u64>,
    drifts: Seq<u64>,
    errors: Seq<u64>,
    cosines: Seq<u64>,
)
    requires
        is_metric_report(metrics, tally, decisions_evaluated, averages),
        overlaps.len() == tally.faces.len() && drifts.len() == tally.faces.len(),
        errors.len() == tally.faces.len() && cosines.len() == tally.faces.len(),
        forall|n: int|
            0 <= n < tally.faces.len() ==> overlaps[n] == (#[trigger] tally.faces[n]).iou
                && drifts[n] == tally.faces[n].score_drift && errors[n]
                == tally.faces[n].landmark_rmse && cosines[n] == tally.faces[n].cosine,
    ensures
        is_distribution(metrics.box_iou, overlaps, averages),
        is_distribution(metrics.detector_score_abs_drift, drifts, averages),
        is_distribution(metrics.landmark_point_rmse_pixels, errors, averages),
        is_distribution(metrics.embedding_cosine, cosines, averages),
        metrics.matched_faces == tally.faces.len(),
        metrics.unmatched_faces == tally.unmatched,
        metrics.threshold_flips == tally.flips,
        metrics.decision_testing_evaluated == decisions_evaluated,
        exists|scores: Seq<u64>| #[trigger]
            is_distribution(metrics.enrolled_score_abs_drift, scores, averages) && (forall|
                bits: u64,
            | #[trigger]
                scores.contains(bits) <==> exists|n: int|
                    0 <= n < tally.faces.len() && (#[trigger] tally.faces[n]).enrolled_drift
                        == Some(bits)),
{
    assert(overlaps =~= tally.faces.map_values(|face: ComparedFaces| face.iou));
    assert(drifts =~= tally.faces.map_values(|face: ComparedFaces| face.score_drift));
    assert(errors =~= tally.faces.map_values(|face: ComparedFaces| face.landmark_rmse));
    assert(cosines =~= tally.faces.map_values(|face: ComparedFaces| face.cosine));
    let scores = enrolled_drifts(tally.faces);
    drifts_are_those_of_faces(tally.faces);
    assert(is_distribution(metrics.enrolled_score_abs_drift, scores, averages));
    assert forall|bits: u64| #[trigger] scores.contains(bits) <==> exists|n: int|
        0 <= n < tally.faces.len() && (#[trigger] tally.faces[n]).enrolled_drift == Some(
            bits,
        ) by {
        if scores.contains(bits) {
            let i = scores.index_of(bits);
            assert(scores[i] == bits);
        }
    }
}

/// What the gates of a report say: which value was held against which limit and how, and
/// over how many faces. Where decisions were not tested, their two gates say nothing.
pub proof fn gates_say_what_they_judged(gates: Gates, metrics: MetricReport)
    requires
        metrics.matched_faces + metrics.unmatched_faces <= usize::MAX,
    ensures
        ({
            let report = gates_of_metrics(gates, metrics);
            let tested = metrics.decision_testing_evaluated;
            &&& report.face_iou.comparator is AtLeast
            &&& report.face_iou.limit == GateValue::Bits(gates.min_face_iou)
            &&& report.face_iou.value == Some(GateValue::Bits(metrics.box_iou.min))
            &&& report.face_iou.evaluated_count == metrics.box_iou.count
            &&& report.detector_score_drift.comparator is AtMost
            &&& report.detector_score_drift.limit == GateValue::Bits(
                gates.max_detector_score_drift,
            )
            &&& report.detector_score_drift.value == Some(
                GateValue::Bits(metrics.detector_score_abs_drift.max),
            )
            &&& report.detector_score_drift.evaluated_count
                == metrics.detector_score_abs_drift.count
            &&& report.landmark_rmse.comparator is AtMost
            &&& report.landmark_rmse.limit == GateValue::Bits(gates.max_landmark_rmse)
            &&& report.landmark_rmse.value == Some(
                GateValue::Bits(metrics.landmark_point_rmse_pixels.max),
            )
            &&& report.landmark_rmse.evaluated_count == metrics.landmark_point_rmse_pixels.count
            &&& report.embedding_cosine.comparator is AtLeast
            &&& report.embedding_cosine.limit == GateValue::Bits(gates.min_embedding_cosine)
            &&& report.embedding_cosine.value == Some(
                GateValue::Bits(metrics.embedding_cosine.min),
            )
            &&& report.embedding_cosine.evaluated_count == metrics.embedding_cosine.count
            &&& report.enrolled_score_drift.comparator is AtMost
            &&& report.enrolled_score_drift.limit == GateValue::Bits(
                gates.max_enrolled_score_drift,
            )
            &&& report.enrolled_score_drift.evaluated_count
                == metrics.enrolled_score_abs_drift.count
            &&& report.threshold_flips.comparator is Equal
            &&& report.threshold_flips.limit == GateValue::Count(0)
            &&& report.threshold_flips.evaluated_count == metrics.enrolled_score_abs_drift.count
            &&& tested ==> report.enrolled_score_drift.value == Some(
                GateValue::Bits(metrics.enrolled_score_abs_drift.max),
            )
            &&& tested ==> report.threshold_flips.value == Some(
                GateValue::Count(metrics.threshold_flips),
            )
            &&& !tested ==> report.enrolled_score_drift.value is None
                && report.enrolled_score_drift.passed is None
            &&& !tested ==> report.threshold_flips.value is None
                && report.threshold_flips.passed is None
            &&& tested ==> report.enrolled_score_drift.passed is Some
                && report.threshold_flips.passed is Some
            &&& report.unmatched_faces.comparator is Equal
            &&& report.unmatched_faces.limit == GateValue::Count(0)
            &&& report.unmatched_faces.value == Some(GateValue::Count(metrics.unmatched_faces))
            &&& report.unmatched_faces.evaluated_count == metrics.matched_faces
                + metrics.unmatched_faces
            &&& report.unmatched_faces.passed == Some(metrics.unmatched_faces == 0)
        }),
{
}

/// A report tells of its own run: which it was, how many pairs and fixtures it had,
/// what it allowed, which arm of each pair ran first, and where each arm's models ran.
pub proof fn reports_tell_of_their_run<
    M: Fn(&[u64]) -> u64,
    H: Fn(u64, u64) -> u64,
    S: Fn(u64, u64) -> u64,
    K: Fn() -> u64,
    E: Fn(u64, u64) -> u64,
>(
    report: Report,
    config: ParentConfig,
    outputs: Seq<PairOutputs>,
    fixture_count: nat,
    tally: Tally,
    decisions_evaluated: bool,
    generation_ms: Seq<u64>,
    measurement_ms: Seq<u64>,
    run_id: Seq<char>,
    averages: Averages<M, H>,
    clock: K,
    time_tools: TimeTools<S, E>,
)
    requires
        is_report(
            report,
            config,
            outputs,
            fixture_count,
            tally,
            decisions_evaluated,
            generation_ms,
            measurement_ms,
            run_id,
            averages,
            clock,
            time_tools,
        ),
    ensures
        report.protocol_version == 2,
        report.run_id@ == run_id,
        report.evidence_scope@ == "paired numerical drift only; not FAR/FRR evidence"@,
        report.fixture_count == fixture_count,
        report.pair_count == outputs.len(),
        config.allow_mixed ==> report.placement_policy@ == "mixed_allowed"@,
        !config.allow_mixed ==> report.placement_policy@ == "all_migraphx_required"@,
        report.provenance.configured_gpu_target@ == config.configured_gpu_target@,
        report.provenance.hsa_override@ == config.hsa_override@,
        report.provenance.hsa_override_source@
            == "configured_cli_value_not_queried_hardware_identity"@,
        report.provenance.provider_provenance_match,
        report.provenance.isolated_arm_caches,
        report.provenance.precision_controls@.len() == 3,
        report.provenance.precision_controls@[0].0@ == "bf16_fp8_int8_exhaustive_dump"@,
        report.provenance.precision_controls@[0].1@ == "disabled"@,
        report.provenance.precision_controls@[1].0@ == "fp16"@,
        report.provenance.precision_controls@[1].1@ == "provider_api=true,environment=1"@,
        report.provenance.precision_controls@[2].0@ == "fp32"@,
        report.provenance.precision_controls@[2].1@ == "provider_api=false,environment=0"@,
        report.process_order@.len() == outputs.len(),
        forall|i: int|
            0 <= i < outputs.len() ==> (#[trigger] report.process_order@[i])@ == (if i % 2 == 0 {
                seq![Precision::Fp32, Precision::Fp16]
            } else {
                seq![Precision::Fp16, Precision::Fp32]
            }),
        report.placement@.len() == outputs.len(),
        forall|i: int|
            0 <= i < outputs.len() ==> {
                let fp32 = outputs[i].fp32->0;
                let fp16 = outputs[i].fp16->0;
                let placed = #[trigger] report.placement@[i];
                &&& placed.pair == i
                &&& placed.fp32_registered_preference@ == fp32.registered_preference@
                &&& placed.fp16_registered_preference@ == fp16.registered_preference@
                &&& placed.fp32_detector.mode == fp32.detector_placement.mode
                &&& placed.fp32_recognizer.mode == fp32.recognizer_placement.mode
                &&& placed.fp16_detector.mode == fp16.detector_placement.mode
                &&& placed.fp16_recognizer.mode == fp16.recognizer_placement.mode
                &&& placed.fp32_detector.migraphx_executed_events
                    == fp32.detector_placement.migraphx_events
                &&& placed.fp32_detector.cpu_executed_events == fp32.detector_placement.cpu_events
                &&& placed.fp32_detector.unknown_executed_events
                    == fp32.detector_placement.unknown_events
                &&& placed.fp16_recognizer.migraphx_executed_events
                    == fp16.recognizer_placement.migraphx_events
                &&& placed.fp16_recognizer.cpu_executed_events
                    == fp16.recognizer_placement.cpu_events
                &&& placed.fp16_recognizer.unknown_executed_events
                    == fp16.recognizer_placement.unknown_events
            },
        report.cache_artifact_unchanged,
        is_distribution(report.cache_generation_process_ms, generation_ms, averages),
        is_distribution(report.loaded_cache_measurement_process_ms, measurement_ms, averages),
        report.all_required_gates_passed <==> {
            &&& report.gates.face_iou.passed != Some(false)
            &&& report.gates.detector_score_drift.passed != Some(false)
            &&& report.gates.landmark_rmse.passed != Some(false)
            &&& report.gates.embedding_cosine.passed != Some(false)
            &&& report.gates.enrolled_score_drift.passed != Some(false)
            &&& report.gates.threshold_flips.passed != Some(false)
            &&& report.gates.unmatched_faces.passed != Some(false)
        },
{
    let controls = report.provenance.precision_controls@.map_values(
        |control: (&'static str, &'static str)| (control.0@, control.1@),
    );
    assert(controls.len() == 3);
    assert(controls[0] == (
        report.provenance.precision_controls@[0].0@,
        report.provenance.precision_controls@[0].1@,
    ));
    assert(controls[1] == (
        report.provenance.precision_controls@[1].0@,
        report.provenance.precision_controls@[1].1@,
    ));
    assert(controls[2] == (
        report.provenance.precision_controls@[2].0@,
        report.provenance.precision_controls@[2].1@,
    ));
}

} // verus!
