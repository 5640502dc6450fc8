//! The comparison of the two arms of the precision experiment.
use crate::float_bits::less64;
use crate::fp16_assignment::{
    adds, are_matches, best_matches, best_matches_are_matches, global_assignment_matrix,
    matches_are_bounded, rows, FaceMatch,
};
use crate::fp16_corpus::{FixtureClass, MAX_FACES_PER_FIXTURE};
use crate::fp16_model::{decides, embedding_error, validate_normalized_embedding};
use crate::fp16_placement::{allowed, validate_placement_pair, PlacementError};
use crate::fp16_records::{FaceRecord, ImageRecord, RecordError, WorkerOutput};
use vstd::prelude::*;

verus! {


/// How much two boxes overlap, as whole numbers: the sides of what they share
/// and the area of each.
#[derive(Clone, Copy, Debug, PartialEq, Eq, Structural)]
pub struct BoxOverlap {
    pub width: i32,
    pub height: i32,
    pub left_area: i32,
    pub right_area: i32,
}

pub open spec fn smaller(a: int, b: int) -> int {
    if a <= b {
        a
    } else {
        b
    }
}

pub open spec fn larger(a: int, b: int) -> int {
    if a >= b {
        a
    } else {
        b
    }
}

/// The length that two spans share, none where they do not meet.
pub open spec fn shared(left_start: int, left_end: int, right_start: int, right_end: int) -> int {
    larger(smaller(left_end, right_end) - larger(left_start, right_start), 0)
}

/// The area of a box; one that ends before it starts has none.
pub open spec fn box_area(corners: Seq<i32>) -> int {
    larger(corners[2] - corners[0], 0) * larger(corners[3] - corners[1], 0)
}

/// Whether a difference can be taken.
pub open spec fn fits(value: int) -> bool {
    i32::MIN <= value <= i32::MAX
}

/// Whether a box's sides and area are numbers of the machine.
pub open spec fn is_measurable(corners: Seq<i32>) -> bool {
    fits(corners[2] - corners[0]) && fits(corners[3] - corners[1]) && fits(box_area(corners))
}

fn positive(value: i32) -> (result: i32)
    ensures
        result == larger(value as int, 0),
{
    if value > 0 {
        value
    } else {
        0
    }
}

fn least(a: i32, b: i32) -> (result: i32)
    ensures
        result == smaller(a as int, b as int),
{
    if a <= b {
        a
    } else {
        b
    }
}

fn most(a: i32, b: i32) -> (result: i32)
    ensures
        result == larger(a as int, b as int),
{
    if a >= b {
        a
    } else {
        b
    }
}

/// How much two boxes overlap.
pub fn bbox_overlap(left: [i32; 4], right: [i32; 4]) -> (overlap: BoxOverlap)
    requires
        is_measurable(left@),
        is_measurable(right@),
        fits(smaller(left@[2] as int, right@[2] as int) - larger(left@[0] as int, right@[0] as int)),
        fits(smaller(left@[3] as int, right@[3] as int) - larger(left@[1] as int, right@[1] as int)),
    ensures
        overlap.width == shared(
            left@[0] as int,
            left@[2] as int,
            right@[0] as int,
            right@[2] as int,
        ),
        overlap.height == shared(
            left@[1] as int,
            left@[3] as int,
            right@[1] as int,
            right@[3] as int,
        ),
        overlap.left_area == box_area(left@),
        overlap.right_area == box_area(right@),
{
    BoxOverlap {
        width: positive(least(left[2], right[2]) - most(left[0], right[0])),
        height: positive(least(left[3], right[3]) - most(left[1], right[1])),
        left_area: positive(left[2] - left[0]) * positive(left[3] - left[1]),
        right_area: positive(right[2] - right[0]) * positive(right[3] - right[1]),
    }
}

/// `iou` is a function that measures overlap as `measure` says, by its bits.
pub open spec fn measures<G: Fn([i32; 4], [i32; 4]) -> u64>(
    iou: G,
    measure: spec_fn([i32; 4], [i32; 4]) -> u64,
) -> bool {
    forall|left: [i32; 4], right: [i32; 4], bits: u64| #[trigger]
        call_ensures(iou, (left, right), bits) ==> bits == measure(left, right)
}

/// How much every left face overlaps every right one.
pub open spec fn overlap_matrix(
    left: Seq<FaceRecord>,
    right: Seq<FaceRecord>,
    measure: spec_fn([i32; 4], [i32; 4]) -> u64,
) -> Seq<Seq<u64>> {
    Seq::new(
        left.len(),
        |i: int| Seq::new(right.len(), |j: int| measure(left[i].bbox, right[j].bbox)),
    )
}

/// Which face of the left picture is which of the right.
pub fn global_face_assignment<
    F: Fn(u64, u64) -> u64,
    G: Fn([i32; 4], [i32; 4]) -> u64,
>(left: &Vec<FaceRecord>, right: &Vec<FaceRecord>, floor: u64, plus: &F, iou: &G) -> (matches: Vec<
    FaceMatch,
>)
    requires
        forall|a: u64, b: u64| #[trigger] call_requires(*plus, (a, b)),
        forall|a: [i32; 4], b: [i32; 4]| #[trigger] call_requires(*iou, (a, b)),
    ensures
        forall|sum: spec_fn(u64, u64) -> u64, measure: spec_fn([i32; 4], [i32; 4]) -> u64|
            #![trigger adds(*plus, sum), measures(*iou, measure)]
            adds(*plus, sum) && measures(*iou, measure) ==> matches@ == best_matches(
                overlap_matrix(left@, right@, measure),
                floor,
                sum,
            ),
        matches@.len() <= left@.len(),
        matches@.len() <= right@.len(),
        forall|i: int|
            0 <= i < matches@.len() ==> (#[trigger] matches@[i]).left < left@.len()
                && matches@[i].right < right@.len(),
{
    let mut matrix: Vec<Vec<u64>> = Vec::new();
    let mut index: usize = 0;
    while index < left.len()
        invariant
            index <= left@.len(),
            forall|a: [i32; 4], b: [i32; 4]| #[trigger] call_requires(*iou, (a, b)),
            matrix@.len() == index,
            forall|i: int| 0 <= i < index ==> (#[trigger] matrix@[i])@.len() == right@.len(),
            forall|measure: spec_fn([i32; 4], [i32; 4]) -> u64| #[trigger]
                measures(*iou, measure) ==> forall|i: int, j: int|
                    0 <= i < index && 0 <= j < right@.len() ==> #[trigger] matrix@[i]@[j]
                        == measure(left@[i].bbox, right@[j].bbox),
        decreases left.len() - index,
    {
        let mut row: Vec<u64> = Vec::new();
        let mut at: usize = 0;
        while at < right.len()
            invariant
                index < left@.len(),
                at <= right@.len(),
                forall|a: [i32; 4], b: [i32; 4]| #[trigger] call_requires(*iou, (a, b)),
                row@.len() == at,
                forall|measure: spec_fn([i32; 4], [i32; 4]) -> u64| #[trigger]
                    measures(*iou, measure) ==> forall|j: int|
                        0 <= j < at ==> #[trigger] row@[j] == measure(
                            left@[index as int].bbox,
                            right@[j].bbox,
                        ),
            decreases right.len() - at,
        {
            let bits: u64 = iou(left[index].bbox, right[at].bbox);
            row.push(bits);
            at = at + 1;
        }
        matrix.push(row);
        index = index + 1;
    }
    let matches = global_assignment_matrix(&matrix, floor, plus);
    proof {
        let all = rows(matrix@);
        let columns: nat = if matrix@.len() == 0 {
            0
        } else {
            matrix@[0]@.len()
        };
        matches_are_bounded(all, columns, floor, matches@);
        assert forall|
            sum: spec_fn(u64, u64) -> u64,
            measure: spec_fn([i32; 4], [i32; 4]) -> u64,
        |
            #![trigger adds(*plus, sum), measures(*iou, measure)]
            adds(*plus, sum) && measures(*iou, measure) implies matches@ == best_matches(
            overlap_matrix(left@, right@, measure),
            floor,
            sum,
        ) by {
            let wanted = overlap_matrix(left@, right@, measure);
            assert forall|i: int| 0 <= i < all.len() implies all[i] == wanted[i] by {
                assert(all[i] == matrix@[i]@);
                assert(matrix@[i]@ =~= wanted[i]);
            }
            assert(all =~= wanted);
        }
    }
    matches
}

/// Two faces that were matched, by the pair of workers, the fixture, and their
/// places on either side.
#[derive(Clone, Copy, Debug, PartialEq, Eq, Structural)]
pub struct ComparedFaces {
    pub pair: usize,
    pub record: usize,
    pub left: usize,
    pub right: usize,
    pub iou: u64,
    pub score_drift: u64,
    pub landmark_rmse: u64,
    pub cosine: u64,
    /// How far the scores against the enrolled models lie apart, where both
    /// faces have one.
    pub enrolled_drift: Option<u64>,
}

/// What comparing has found so far.
#[verifier::ext_equal]
pub struct Tally {
    pub faces: Seq<ComparedFaces>,
    pub unmatched: nat,
    pub flips: nat,
}

/// What comparing found.
#[derive(Debug)]
pub struct Comparison {
    pub faces: Vec<ComparedFaces>,
    pub unmatched: usize,
    pub flips: usize,
    /// When comparing the faces of each fixture began and ended.
    pub times: Vec<(u64, u64)>,
}

impl View for Comparison {
    type V = Tally;

    open spec fn view(&self) -> Tally {
        Tally { faces: self.faces@, unmatched: self.unmatched as nat, flips: self.flips as nat }
    }
}

/// What faces are compared with, by the bits of numbers: the sum of two
/// overlaps, the overlap of two boxes, how far two scores and two sets of
/// landmarks lie apart, whether an embedding has the length of one, and how
/// alike two embeddings are, where that can be said.
pub struct FaceTools<F, G, D, R, U, C> {
    pub plus: F,
    pub iou: G,
    pub drift: D,
    pub rmse: R,
    pub unit: U,
    pub cosine: C,
}

/// What the tools do, and from which overlap on faces are matched.
pub struct Matcher {
    pub floor: u64,
    pub sum: spec_fn(u64, u64) -> u64,
    pub measure: spec_fn([i32; 4], [i32; 4]) -> u64,
    pub drift: spec_fn(u32, u32) -> u64,
    pub rmse: spec_fn(Seq<u32>, Seq<u32>) -> u64,
    pub unit: spec_fn(Seq<u32>) -> bool,
    pub cosine: spec_fn(Seq<u32>, Seq<u32>) -> Option<u64>,
}

/// The tools work on everything.
pub open spec fn can_compare<
    F: Fn(u64, u64) -> u64,
    G: Fn([i32; 4], [i32; 4]) -> u64,
    D: Fn(u32, u32) -> u64,
    R: Fn(&[u32], &[u32]) -> u64,
    U: Fn(&[u32]) -> bool,
    C: Fn(&[u32], &[u32]) -> Option<u64>,
>(tools: FaceTools<F, G, D, R, U, C>) -> bool {
    &&& forall|a: u64, b: u64| #[trigger] call_requires(tools.plus, (a, b))
    &&& forall|a: [i32; 4], b: [i32; 4]| #[trigger] call_requires(tools.iou, (a, b))
    &&& forall|a: u32, b: u32| #[trigger] call_requires(tools.drift, (a, b))
    &&& forall|a: &[u32], b: &[u32]| #[trigger] call_requires(tools.rmse, (a, b))
    &&& forall|values: &[u32]| #[trigger] call_requires(tools.unit, (values,))
    &&& forall|a: &[u32], b: &[u32]| #[trigger] call_requires(tools.cosine, (a, b))
}

/// The tools are functions, and these.
pub open spec fn realizes<
    F: Fn(u64, u64) -> u64,
    G: Fn([i32; 4], [i32; 4]) -> u64,
    D: Fn(u32, u32) -> u64,
    R: Fn(&[u32], &[u32]) -> u64,
    U: Fn(&[u32]) -> bool,
    C: Fn(&[u32], &[u32]) -> Option<u64>,
>(tools: FaceTools<F, G, D, R, U, C>, floor: u64, matcher: Matcher) -> bool {
    &&& matcher.floor == floor
    &&& adds(tools.plus, matcher.sum)
    &&& measures(tools.iou, matcher.measure)
    &&& forall|a: u32, b: u32, bits: u64| #[trigger]
        call_ensures(tools.drift, (a, b), bits) ==> bits == (matcher.drift)(a, b)
    &&& forall|a: &[u32], b: &[u32], bits: u64| #[trigger]
        call_ensures(tools.rmse, (a, b), bits) ==> bits == (matcher.rmse)(a@, b@)
    &&& decides(tools.unit, matcher.unit)
    &&& forall|a: &[u32], b: &[u32], bits: Option<u64>| #[trigger]
        call_ensures(tools.cosine, (a, b), bits) ==> bits == (matcher.cosine)(a@, b@)
}

/// How alike two embeddings are. Both must be embeddings.
pub open spec fn similarity(
    left: Seq<u32>,
    right: Seq<u32>,
    matcher: Matcher,
) -> Result<u64, RecordError> {
    match embedding_error(left, matcher.unit) {
        Some(error) => Err(RecordError::Embedding(error)),
        None => match embedding_error(right, matcher.unit) {
            Some(error) => Err(RecordError::Embedding(error)),
            None => match (matcher.cosine)(left, right) {
                Some(bits) => Ok(bits),
                None => Err(RecordError::SimilarityUnavailable),
            },
        },
    }
}

/// How alike two embeddings are.
pub fn embedding_cosine<U: Fn(&[u32]) -> bool, C: Fn(&[u32], &[u32]) -> Option<u64>>(
    left: &[u32],
    right: &[u32],
    unit: &U,
    cosine: &C,
) -> (found: Result<u64, RecordError>)
    requires
        forall|values: &[u32]| #[trigger] call_requires(*unit, (values,)),
        forall|a: &[u32], b: &[u32]| #[trigger] call_requires(*cosine, (a, b)),
    ensures
        forall|matcher: Matcher| #[trigger]
            is_cosine(*unit, *cosine, matcher) ==> found == similarity(left@, right@, matcher),
{
    match validate_normalized_embedding(left, unit) {
        Ok(()) => {},
        Err(error) => {
            return Err(RecordError::Embedding(error));
        },
    }
    match validate_normalized_embedding(right, unit) {
        Ok(()) => {},
        Err(error) => {
            return Err(RecordError::Embedding(error));
        },
    }
    match cosine(left, right) {
        Some(bits) => Ok(bits),
        None => Err(RecordError::SimilarityUnavailable),
    }
}

/// The two tools for embeddings are those of a matcher.
pub open spec fn is_cosine<U: Fn(&[u32]) -> bool, C: Fn(&[u32], &[u32]) -> Option<u64>>(
    unit: U,
    cosine: C,
    matcher: Matcher,
) -> bool {
    &&& decides(unit, matcher.unit)
    &&& forall|a: &[u32], b: &[u32], bits: Option<u64>| #[trigger]
        call_ensures(cosine, (a, b), bits) ==> bits == (matcher.cosine)(a@, b@)
}

/// Adds one match: the embeddings must be comparable, a decision that differs
/// counts as a flip, and scores must be there on both sides, or on neither where
/// no decision is tested.
pub open spec fn with_match(
    tally: Tally,
    pair: usize,
    record: usize,
    found: FaceMatch,
    left: FaceRecord,
    right: FaceRecord,
    matcher: Matcher,
    decisions_evaluated: bool,
) -> Result<Tally, RecordError> {
    match similarity(left.embedding@, right.embedding@, matcher) {
        Err(error) => Err(error),
        Ok(cosine) => {
            let compared = ComparedFaces {
                pair,
                record,
                left: found.left,
                right: found.right,
                iou: found.iou,
                score_drift: (matcher.drift)(left.detector_score, right.detector_score),
                landmark_rmse: (matcher.rmse)(left.landmarks@, right.landmarks@),
                cosine,
                enrolled_drift: None,
            };
            match (left.enrolled_score, right.enrolled_score) {
                (Some(first), Some(second)) => Ok(
                    Tally {
                        faces: tally.faces.push(
                            ComparedFaces {
                                enrolled_drift: Some((matcher.drift)(first, second)),
                                ..compared
                            },
                        ),
                        unmatched: tally.unmatched,
                        flips: tally.flips + if left.decision != right.decision {
                            1nat
                        } else {
                            0
                        },
                    },
                ),
                (None, None) => if !decisions_evaluated {
                    Ok(
                        Tally {
                            faces: tally.faces.push(compared),
                            unmatched: tally.unmatched,
                            flips: tally.flips,
                        },
                    )
                } else {
                    Err(RecordError::DecisionEvaluationMismatch)
                },
                _ => Err(RecordError::DecisionEvaluationMismatch),
            }
        },
    }
}

/// Adds the matches from `at` on.
pub open spec fn with_matches(
    tally: Tally,
    pair: usize,
    record: usize,
    matches: Seq<FaceMatch>,
    left: Seq<FaceRecord>,
    right: Seq<FaceRecord>,
    matcher: Matcher,
    decisions_evaluated: bool,
    at: int,
) -> Result<Tally, RecordError>
    decreases matches.len() - at,
{
    if at < 0 || at >= matches.len() {
        Ok(tally)
    } else {
        let found = matches[at];
        match with_match(
            tally,
            pair,
            record,
            found,
            left[found.left as int],
            right[found.right as int],
            matcher,
            decisions_evaluated,
        ) {
            Err(error) => Err(error),
            Ok(next) => with_matches(
                next,
                pair,
                record,
                matches,
                left,
                right,
                matcher,
                decisions_evaluated,
                at + 1,
            ),
        }
    }
}

/// The matches between two records.
pub open spec fn matched(matcher: Matcher, left: ImageRecord, right: ImageRecord) -> Seq<FaceMatch> {
    best_matches(
        overlap_matrix(left.faces@, right.faces@, matcher.measure),
        matcher.floor,
        matcher.sum,
    )
}

/// Adds a fixture: both records must be about it, and faces that are matched to
/// none count as unmatched.
pub open spec fn with_record(
    tally: Tally,
    pair: usize,
    at: int,
    left: ImageRecord,
    right: ImageRecord,
    class: FixtureClass,
    matcher: Matcher,
    decisions_evaluated: bool,
) -> Result<Tally, RecordError> {
    if left.index != at || right.index != at || left.class != class || right.class != left.class {
        Err(RecordError::RecordPairingMismatch)
    } else {
        let matches = matched(matcher, left, right);
        with_matches(
            Tally {
                unmatched: (tally.unmatched + left.faces@.len() + right.faces@.len() - 2
                    * matches.len()) as nat,
                ..tally
            },
            pair,
            at as usize,
            matches,
            left.faces@,
            right.faces@,
            matcher,
            decisions_evaluated,
            0,
        )
    }
}

/// Adds the fixtures from `at` on that both workers have records of.
pub open spec fn with_records(
    tally: Tally,
    pair: usize,
    left: Seq<ImageRecord>,
    right: Seq<ImageRecord>,
    classes: Seq<FixtureClass>,
    matcher: Matcher,
    decisions_evaluated: bool,
    at: int,
) -> Result<Tally, RecordError>
    decreases left.len() - at,
{
    if at < 0 || at >= left.len() || at >= right.len() {
        Ok(tally)
    } else {
        match with_record(
            tally,
            pair,
            at,
            left[at],
            right[at],
            classes[at],
            matcher,
            decisions_evaluated,
        ) {
            Err(error) => Err(error),
            Ok(next) => with_records(
                next,
                pair,
                left,
                right,
                classes,
                matcher,
                decisions_evaluated,
                at + 1,
            ),
        }
    }
}

/// The outputs of the two arms of a pair.
#[derive(Debug)]
pub struct PairOutputs {
    pub fp32: Option<WorkerOutput>,
    pub fp16: Option<WorkerOutput>,
}

/// Why the placements of a pair are rejected.
pub open spec fn pair_placement_error(
    allow_mixed: bool,
    fp32: WorkerOutput,
    fp16: WorkerOutput,
) -> Option<PlacementError> {
    if !allowed(fp32.detector_placement.mode, allow_mixed) || !allowed(
        fp32.recognizer_placement.mode,
        allow_mixed,
    ) || !allowed(fp16.detector_placement.mode, allow_mixed) || !allowed(
        fp16.recognizer_placement.mode,
        allow_mixed,
    ) {
        Some(PlacementError::PolicyRejected)
    } else if fp32.detector_placement.node_map() != fp16.detector_placement.node_map()
        || fp32.recognizer_placement.node_map() != fp16.recognizer_placement.node_map() {
        Some(PlacementError::NotComparable)
    } else {
        None
    }
}

/// Adds a pair: both arms must be there and their placements accepted.
pub open spec fn with_pair(
    tally: Tally,
    pair: int,
    outputs: PairOutputs,
    allow_mixed: bool,
    classes: Seq<FixtureClass>,
    matcher: Matcher,
    decisions_evaluated: bool,
) -> Result<Tally, RecordError> {
    match (outputs.fp32, outputs.fp16) {
        (Some(fp32), Some(fp16)) => match pair_placement_error(allow_mixed, fp32, fp16) {
            Some(error) => Err(RecordError::Placement(error)),
            None => with_records(
                tally,
                pair as usize,
                fp32.records@,
                fp16.records@,
                classes,
                matcher,
                decisions_evaluated,
                0,
            ),
        },
        _ => Err(RecordError::ArmMissing),
    }
}

/// Adds the pairs from `at` on.
pub open spec fn with_pairs(
    tally: Tally,
    outputs: Seq<PairOutputs>,
    allow_mixed: bool,
    classes: Seq<FixtureClass>,
    matcher: Matcher,
    decisions_evaluated: bool,
    at: int,
) -> Result<Tally, RecordError>
    decreases outputs.len() - at,
{
    if at < 0 || at >= outputs.len() {
        Ok(tally)
    } else {
        match with_pair(
            tally,
            at,
            outputs[at],
            allow_mixed,
            classes,
            matcher,
            decisions_evaluated,
        ) {
            Err(error) => Err(error),
            Ok(next) => with_pairs(
                next,
                outputs,
                allow_mixed,
                classes,
                matcher,
                decisions_evaluated,
                at + 1,
            ),
        }
    }
}

pub open spec fn nothing_compared() -> Tally {
    Tally { faces: Seq::empty(), unmatched: 0, flips: 0 }
}

/// A comparison ended as a tally did.
pub open spec fn tally_is(
    result: Result<(), RecordError>,
    comparison: Comparison,
    wanted: Result<Tally, RecordError>,
) -> bool {
    match wanted {
        Ok(tally) => result is Ok && comparison@ == tally,
        Err(error) => result == Err::<(), RecordError>(error),
    }
}

/// The counts of a comparison of so many fixtures are within their bounds.
spec fn is_bounded(comparison: Comparison, fixtures: nat) -> bool {
    &&& comparison.unmatched <= 32 * fixtures
    &&& comparison.flips <= 16 * fixtures
    &&& comparison.faces@.len() <= 16 * fixtures
}

fn compare_faces<
    F: Fn(u64, u64) -> u64,
    G: Fn([i32; 4], [i32; 4]) -> u64,
    D: Fn(u32, u32) -> u64,
    R: Fn(&[u32], &[u32]) -> u64,
    U: Fn(&[u32]) -> bool,
    C: Fn(&[u32], &[u32]) -> Option<u64>,
>(
    comparison: &mut Comparison,
    pair: usize,
    record: usize,
    found: FaceMatch,
    left: &FaceRecord,
    right: &FaceRecord,
    tools: &FaceTools<F, G, D, R, U, C>,
    decisions_evaluated: bool,
) -> (result: Result<(), RecordError>)
    requires
        can_compare(*tools),
        old(comparison).flips < usize::MAX,
    ensures
        forall|floor: u64, matcher: Matcher| #[trigger]
            realizes(*tools, floor, matcher) ==> tally_is(
                result,
                *final(comparison),
                with_match(
                    old(comparison)@,
                    pair,
                    record,
                    found,
                    *left,
                    *right,
                    matcher,
                    decisions_evaluated,
                ),
            ),
        final(comparison).unmatched == old(comparison).unmatched,
        final(comparison).times == old(comparison).times,
        final(comparison).flips <= old(comparison).flips + 1,
        final(comparison).faces@.len() <= old(comparison).faces@.len() + 1,
{
    let ghost before = comparison@;
    let similar = embedding_cosine(
        left.embedding.as_slice(),
        right.embedding.as_slice(),
        &tools.unit,
        &tools.cosine,
    );
    proof {
        assert forall|floor: u64, matcher: Matcher| #[trigger]
            realizes(*tools, floor, matcher) implies similar == similarity(
            left.embedding@,
            right.embedding@,
            matcher,
        ) by {
            assert(is_cosine(tools.unit, tools.cosine, matcher));
        }
    }
    let cosine: u64 = match similar {
        Ok(bits) => bits,
        Err(error) => {
            return Err(error);
        },
    };
    let enrolled_drift: Option<u64> = match (left.enrolled_score, right.enrolled_score) {
        (Some(first), Some(second)) => Some((tools.drift)(first, second)),
        (None, None) => {
            if decisions_evaluated {
                return Err(RecordError::DecisionEvaluationMismatch);
            }
            None
        },
        _ => {
            return Err(RecordError::DecisionEvaluationMismatch);
        },
    };
    if enrolled_drift.is_some() && left.decision != right.decision {
        comparison.flips = comparison.flips + 1;
    }
    let score_drift: u64 = (tools.drift)(left.detector_score, right.detector_score);
    let landmark_rmse: u64 = (tools.rmse)(left.landmarks.as_slice(), right.landmarks.as_slice());
    comparison.faces.push(
        ComparedFaces {
            pair,
            record,
            left: found.left,
            right: found.right,
            iou: found.iou,
            score_drift,
            landmark_rmse,
            cosine,
            enrolled_drift,
        },
    );
    proof {
        assert forall|floor: u64, matcher: Matcher| #[trigger]
            realizes(*tools, floor, matcher) implies tally_is(
            Ok(()),
            *comparison,
            with_match(
                before,
                pair,
                record,
                found,
                *left,
                *right,
                matcher,
                decisions_evaluated,
            ),
        ) by {
            assert(score_drift == (matcher.drift)(left.detector_score, right.detector_score));
            assert(landmark_rmse == (matcher.rmse)(left.landmarks@, right.landmarks@));
            let next = with_match(
                before,
                pair,
                record,
                found,
                *left,
                *right,
                matcher,
                decisions_evaluated,
            );
            assert(comparison@ =~= next->Ok_0);
        }
    }
    Ok(())
}

fn add_matches<
    F: Fn(u64, u64) -> u64,
    G: Fn([i32; 4], [i32; 4]) -> u64,
    D: Fn(u32, u32) -> u64,
    R: Fn(&[u32], &[u32]) -> u64,
    U: Fn(&[u32]) -> bool,
    C: Fn(&[u32], &[u32]) -> Option<u64>,
>(
    comparison: &mut Comparison,
    pair: usize,
    record: usize,
    matches: &Vec<FaceMatch>,
    left: &Vec<FaceRecord>,
    right: &Vec<FaceRecord>,
    tools: &FaceTools<F, G, D, R, U, C>,
    decisions_evaluated: bool,
) -> (result: Result<(), RecordError>)
    requires
        can_compare(*tools),
        forall|i: int|
            0 <= i < matches@.len() ==> (#[trigger] matches@[i]).left < left@.len()
                && matches@[i].right < right@.len(),
        old(comparison).flips + matches@.len() <= usize::MAX,
    ensures
        forall|floor: u64, matcher: Matcher| #[trigger]
            realizes(*tools, floor, matcher) ==> tally_is(
                result,
                *final(comparison),
                with_matches(
                    old(comparison)@,
                    pair,
                    record,
                    matches@,
                    left@,
                    right@,
                    matcher,
                    decisions_evaluated,
                    0,
                ),
            ),
        final(comparison).unmatched == old(comparison).unmatched,
        final(comparison).times == old(comparison).times,
        final(comparison).flips <= old(comparison).flips + matches@.len(),
        final(comparison).faces@.len() <= old(comparison).faces@.len() + matches@.len(),
{
    let ghost start = comparison@;
    let mut index: usize = 0;
    while index < matches.len()
        invariant
            index <= matches@.len(),
            can_compare(*tools),
            forall|i: int|
                0 <= i < matches@.len() ==> (#[trigger] matches@[i]).left < left@.len()
                    && matches@[i].right < right@.len(),
            old(comparison).flips + matches@.len() <= usize::MAX,
            comparison.flips <= old(comparison).flips + index,
            comparison.faces@.len() <= old(comparison).faces@.len() + index,
            comparison.unmatched == old(comparison).unmatched,
            comparison.times == old(comparison).times,
            start == old(comparison)@,
            forall|floor: u64, matcher: Matcher| #[trigger]
                realizes(*tools, floor, matcher) ==> with_matches(
                    start,
                    pair,
                    record,
                    matches@,
                    left@,
                    right@,
                    matcher,
                    decisions_evaluated,
                    0,
                ) == with_matches(
                    comparison@,
                    pair,
                    record,
                    matches@,
                    left@,
                    right@,
                    matcher,
                    decisions_evaluated,
                    index as int,
                ),
        decreases matches.len() - index,
    {
        let found: FaceMatch = matches[index];
        match compare_faces(
            comparison,
            pair,
            record,
            found,
            &left[found.left],
            &right[found.right],
            tools,
            decisions_evaluated,
        ) {
            Ok(()) => {},
            Err(error) => {
                return Err(error);
            },
        }
        index = index + 1;
    }
    Ok(())
}

/// A span of time is what the clock said twice.
pub open spec fn is_timed<K: Fn() -> u64>(clock: K, span: (u64, u64)) -> bool {
    call_ensures(clock, (), span.0) && call_ensures(clock, (), span.1)
}

fn add_record<
    F: Fn(u64, u64) -> u64,
    G: Fn([i32; 4], [i32; 4]) -> u64,
    D: Fn(u32, u32) -> u64,
    R: Fn(&[u32], &[u32]) -> u64,
    U: Fn(&[u32]) -> bool,
    C: Fn(&[u32], &[u32]) -> Option<u64>,
    K: Fn() -> u64,
>(
    comparison: &mut Comparison,
    pair: usize,
    at: usize,
    left: &ImageRecord,
    right: &ImageRecord,
    class: FixtureClass,
    floor: u64,
    tools: &FaceTools<F, G, D, R, U, C>,
    clock: &K,
    decisions_evaluated: bool,
    Ghost(fixtures): Ghost<nat>,
) -> (result: Result<(), RecordError>)
    requires
        can_compare(*tools),
        call_requires(*clock, ()),
        is_bounded(*old(comparison), fixtures),
        fixtures < 1024,
        left.faces@.len() <= MAX_FACES_PER_FIXTURE,
        right.faces@.len() <= MAX_FACES_PER_FIXTURE,
        forall|i: int|
            0 <= i < old(comparison).times@.len() ==> is_timed(
                *clock,
                #[trigger] old(comparison).times@[i],
            ),
    ensures
        forall|matcher: Matcher| #[trigger]
            realizes(*tools, floor, matcher) ==> tally_is(
                result,
                *final(comparison),
                with_record(
                    old(comparison)@,
                    pair,
                    at as int,
                    *left,
                    *right,
                    class,
                    matcher,
                    decisions_evaluated,
                ),
            ),
        is_bounded(*final(comparison), fixtures + 1),
        result is Ok ==> final(comparison).times@.len() == old(comparison).times@.len() + 1,
        forall|i: int|
            0 <= i < final(comparison).times@.len() ==> is_timed(
                *clock,
                #[trigger] final(comparison).times@[i],
            ),
{
    if left.index != at || right.index != at || left.class != class || right.class != left.class {
        return Err(RecordError::RecordPairingMismatch);
    }
    let started: u64 = clock();
    let matches = global_face_assignment(&left.faces, &right.faces, floor, &tools.plus, &tools.iou);
    let ghost before = comparison@;
    comparison.unmatched = comparison.unmatched + (left.faces.len() - matches.len()) + (
    right.faces.len() - matches.len());
    let ghost counted = comparison@;
    proof {
        assert forall|matcher: Matcher| #[trigger]
            realizes(*tools, floor, matcher) implies matched(matcher, *left, *right) == matches@
            && counted == (Tally {
            unmatched: (before.unmatched + left.faces@.len() + right.faces@.len() - 2
                * matches@.len()) as nat,
            ..before
        }) by {
            assert(adds(tools.plus, matcher.sum) && measures(tools.iou, matcher.measure));
        }
    }
    match add_matches(
        comparison,
        pair,
        at,
        &matches,
        &left.faces,
        &right.faces,
        tools,
        decisions_evaluated,
    ) {
        Ok(()) => {},
        Err(error) => {
            return Err(error);
        },
    }
    let ended: u64 = clock();
    let ghost compared = comparison@;
    comparison.times.push((started, ended));
    assert(comparison@ =~= compared);
    Ok(())
}

/// The records of an output are as many as there may be, and so are their faces.
pub open spec fn records_are_few(output: WorkerOutput, fixtures: nat) -> bool {
    output.records@.len() <= fixtures && forall|i: int|
        0 <= i < output.records@.len() ==> (#[trigger] output.records@[i]).faces@.len()
            <= MAX_FACES_PER_FIXTURE
}

/// How many fixtures both arms of a pair have records of.
pub open spec fn shared_records(outputs: PairOutputs) -> nat {
    match (outputs.fp32, outputs.fp16) {
        (Some(fp32), Some(fp16)) => if fp32.records@.len() <= fp16.records@.len() {
            fp32.records@.len()
        } else {
            fp16.records@.len()
        },
        _ => 0,
    }
}

/// How many fixtures are compared in the first `count` pairs.
pub open spec fn compared_records(outputs: Seq<PairOutputs>, count: nat) -> nat
    decreases count,
{
    if count == 0 {
        0
    } else {
        compared_records(outputs, (count - 1) as nat) + shared_records(outputs[count - 1])
    }
}

fn add_pair<
    F: Fn(u64, u64) -> u64,
    G: Fn([i32; 4], [i32; 4]) -> u64,
    D: Fn(u32, u32) -> u64,
    R: Fn(&[u32], &[u32]) -> u64,
    U: Fn(&[u32]) -> bool,
    C: Fn(&[u32], &[u32]) -> Option<u64>,
    K: Fn() -> u64,
>(
    comparison: &mut Comparison,
    pair: usize,
    outputs: &PairOutputs,
    allow_mixed: bool,
    classes: &Vec<FixtureClass>,
    floor: u64,
    tools: &FaceTools<F, G, D, R, U, C>,
    clock: &K,
    decisions_evaluated: bool,
) -> (result: Result<(), RecordError>)
    requires
        can_compare(*tools),
        call_requires(*clock, ()),
        is_bounded(*old(comparison), (pair * 32) as nat),
        pair < 16,
        classes@.len() <= 32,
        are_comparable(*outputs, classes@.len()),
        forall|i: int|
            0 <= i < old(comparison).times@.len() ==> is_timed(
                *clock,
                #[trigger] old(comparison).times@[i],
            ),
    ensures
        forall|matcher: Matcher| #[trigger]
            realizes(*tools, floor, matcher) ==> tally_is(
                result,
                *final(comparison),
                with_pair(
                    old(comparison)@,
                    pair as int,
                    *outputs,
                    allow_mixed,
                    classes@,
                    matcher,
                    decisions_evaluated,
                ),
            ),
        is_bounded(*final(comparison), (pair * 32 + 32) as nat),
        result is Ok ==> final(comparison).times@.len() == old(comparison).times@.len()
            + shared_records(*outputs),
        result is Ok ==> outputs.fp32 is Some && outputs.fp16 is Some,
        forall|i: int|
            0 <= i < final(comparison).times@.len() ==> is_timed(
                *clock,
                #[trigger] final(comparison).times@[i],
            ),
{
    let fp32: &WorkerOutput = match &outputs.fp32 {
        Some(output) => output,
        None => {
            return Err(RecordError::ArmMissing);
        },
    };
    let fp16: &WorkerOutput = match &outputs.fp16 {
        Some(output) => output,
        None => {
            return Err(RecordError::ArmMissing);
        },
    };
    match validate_placement_pair(
        allow_mixed,
        &fp32.detector_placement,
        &fp32.recognizer_placement,
        &fp16.detector_placement,
        &fp16.recognizer_placement,
    ) {
        Ok(()) => {},
        Err(error) => {
            return Err(RecordError::Placement(error));
        },
    }
    let ghost start = comparison@;
    let mut index: usize = 0;
    while index < fp32.records.len() && index < fp16.records.len()
        invariant
            index <= fp32.records@.len(),
            index <= fp16.records@.len(),
            can_compare(*tools),
            call_requires(*clock, ()),
            is_bounded(*comparison, (pair * 32 + index) as nat),
            pair < 16,
            classes@.len() <= 32,
            records_are_few(*fp32, classes@.len()),
            records_are_few(*fp16, classes@.len()),
            outputs.fp32 == Some(*fp32),
            outputs.fp16 == Some(*fp16),
            pair_placement_error(allow_mixed, *fp32, *fp16) is None,
            start == old(comparison)@,
            comparison.times@.len() == old(comparison).times@.len() + index,
            forall|i: int|
                0 <= i < comparison.times@.len() ==> is_timed(
                    *clock,
                    #[trigger] comparison.times@[i],
                ),
            forall|matcher: Matcher| #[trigger]
                realizes(*tools, floor, matcher) ==> with_pair(
                    start,
                    pair as int,
                    *outputs,
                    allow_mixed,
                    classes@,
                    matcher,
                    decisions_evaluated,
                ) == with_records(
                    comparison@,
                    pair,
                    fp32.records@,
                    fp16.records@,
                    classes@,
                    matcher,
                    decisions_evaluated,
                    index as int,
                ),
        decreases fp32.records.len() - index,
    {
        match add_record(
            comparison,
            pair,
            index,
            &fp32.records[index],
            &fp16.records[index],
            classes[index],
            floor,
            tools,
            clock,
            decisions_evaluated,
            Ghost((pair * 32 + index) as nat),
        ) {
            Ok(()) => {},
            Err(error) => {
                return Err(error);
            },
        }
        index = index + 1;
    }
    Ok(())
}

/// Both arms of a pair, where they are there, are well-formed and have few
/// enough records and faces.
pub open spec fn are_comparable(outputs: PairOutputs, fixtures: nat) -> bool {
    &&& outputs.fp32 matches Some(output) ==> records_are_few(output, fixtures)
        && output.detector_placement.wf() && output.recognizer_placement.wf()
    &&& outputs.fp16 matches Some(output) ==> records_are_few(output, fixtures)
        && output.detector_placement.wf() && output.recognizer_placement.wf()
}

/// Compares the arms of all pairs, fixture by fixture. The clock is read before
/// and after the faces of a fixture are compared.
pub fn compare_outputs<
    F: Fn(u64, u64) -> u64,
    G: Fn([i32; 4], [i32; 4]) -> u64,
    D: Fn(u32, u32) -> u64,
    R: Fn(&[u32], &[u32]) -> u64,
    U: Fn(&[u32]) -> bool,
    C: Fn(&[u32], &[u32]) -> Option<u64>,
    K: Fn() -> u64,
>(
    outputs: &Vec<PairOutputs>,
    allow_mixed: bool,
    classes: &Vec<FixtureClass>,
    floor: u64,
    tools: &FaceTools<F, G, D, R, U, C>,
    clock: &K,
    decisions_evaluated: bool,
) -> (comparison: Result<Comparison, RecordError>)
    requires
        can_compare(*tools),
        call_requires(*clock, ()),
        outputs@.len() <= 16,
        classes@.len() <= 32,
        forall|i: int|
            0 <= i < outputs@.len() ==> are_comparable(#[trigger] outputs@[i], classes@.len()),
    ensures
        forall|matcher: Matcher| #[trigger]
            realizes(*tools, floor, matcher) ==> match with_pairs(
                nothing_compared(),
                outputs@,
                allow_mixed,
                classes@,
                matcher,
                decisions_evaluated,
                0,
            ) {
                Ok(tally) => comparison matches Ok(found) && found@ == tally,
                Err(error) => comparison == Err::<Comparison, RecordError>(error),
            },
        comparison matches Ok(found) ==> found.times@.len() == compared_records(
            outputs@,
            outputs@.len(),
        ) && found.faces@.len() <= 8192 && found.unmatched <= 16384,
        comparison matches Ok(found) ==> forall|i: int|
            0 <= i < found.times@.len() ==> is_timed(*clock, #[trigger] found.times@[i]),
        comparison is Ok ==> forall|i: int|
            0 <= i < outputs@.len() ==> (#[trigger] outputs@[i]).fp32 is Some
                && outputs@[i].fp16 is Some,
{
    let mut comparison = Comparison {
        faces: Vec::new(),
        unmatched: 0,
        flips: 0,
        times: Vec::new(),
    };
    assert(comparison@ =~= nothing_compared());
    let mut index: usize = 0;
    while index < outputs.len()
        invariant
            index <= outputs@.len() <= 16,
            classes@.len() <= 32,
            can_compare(*tools),
            call_requires(*clock, ()),
            forall|i: int|
                0 <= i < outputs@.len() ==> are_comparable(#[trigger] outputs@[i], classes@.len()),
            is_bounded(comparison, (index * 32) as nat),
            comparison.times@.len() == compared_records(outputs@, index as nat),
            forall|i: int|
                0 <= i < comparison.times@.len() ==> is_timed(
                    *clock,
                    #[trigger] comparison.times@[i],
                ),
            forall|i: int|
                0 <= i < index ==> (#[trigger] outputs@[i]).fp32 is Some && outputs@[i].fp16
                    is Some,
            forall|matcher: Matcher| #[trigger]
                realizes(*tools, floor, matcher) ==> with_pairs(
                    nothing_compared(),
                    outputs@,
                    allow_mixed,
                    classes@,
                    matcher,
                    decisions_evaluated,
                    0,
                ) == with_pairs(
                    comparison@,
                    outputs@,
                    allow_mixed,
                    classes@,
                    matcher,
                    decisions_evaluated,
                    index as int,
                ),
        decreases outputs.len() - index,
    {
        match add_pair(
            &mut comparison,
            index,
            &outputs[index],
            allow_mixed,
            classes,
            floor,
            tools,
            clock,
            decisions_evaluated,
        ) {
            Ok(()) => {},
            Err(error) => {
                return Err(error);
            },
        }
        index = index + 1;
    }
    Ok(comparison)
}

/// What is said of two faces is measured on exactly these two, the single-precision
/// one first: both embeddings are embeddings, and their likeness, how far scores and
/// landmarks lie apart, and how much the boxes overlap, which is no less than the
/// floor, are what the tools say. Scores against enrolled models are on both
/// faces or on neither.
pub open spec fn are_measured(
    said: ComparedFaces,
    single: FaceRecord,
    half: FaceRecord,
    matcher: Matcher,
    decisions_evaluated: bool,
) -> bool {
    &&& embedding_error(single.embedding@, matcher.unit) is None
    &&& embedding_error(half.embedding@, matcher.unit) is None
    &&& (matcher.cosine)(single.embedding@, half.embedding@) == Some(said.cosine)
    &&& said.score_drift == (matcher.drift)(single.detector_score, half.detector_score)
    &&& said.landmark_rmse == (matcher.rmse)(single.landmarks@, half.landmarks@)
    &&& said.iou == (matcher.measure)(single.bbox, half.bbox)
    &&& !less64(said.iou, matcher.floor)
    &&& single.enrolled_score is Some <==> half.enrolled_score is Some
    &&& decisions_evaluated ==> single.enrolled_score is Some
    &&& said.enrolled_drift == (match (single.enrolled_score, half.enrolled_score) {
        (Some(first), Some(second)) => Some((matcher.drift)(first, second)),
        _ => None,
    })
}

/// The face of the single-precision arm that something is said of.
pub open spec fn single_face(outputs: Seq<PairOutputs>, said: ComparedFaces) -> FaceRecord {
    outputs[said.pair as int].fp32->0.records@[said.record as int].faces@[said.left as int]
}

/// The face of the half-precision arm that something is said of.
pub open spec fn half_face(outputs: Seq<PairOutputs>, said: ComparedFaces) -> FaceRecord {
    outputs[said.pair as int].fp16->0.records@[said.record as int].faces@[said.right as int]
}

/// Something is said of a face of each arm, of the same fixture.
pub open spec fn has_both_faces(outputs: Seq<PairOutputs>, said: ComparedFaces) -> bool {
    &&& said.pair < outputs.len()
    &&& outputs[said.pair as int].fp32 is Some && outputs[said.pair as int].fp16 is Some
    &&& said.record < outputs[said.pair as int].fp32->0.records@.len()
    &&& said.record < outputs[said.pair as int].fp16->0.records@.len()
    &&& said.left < outputs[said.pair as int].fp32->0.records@[said.record as int].faces@.len()
    &&& said.right < outputs[said.pair as int].fp16->0.records@[said.record as int].faces@.len()
    &&& outputs[said.pair as int].fp32->0.records@[said.record as int].index == said.record
    &&& outputs[said.pair as int].fp16->0.records@[said.record as int].index == said.record
}

/// How often the two faces were decided differently.
pub open spec fn decided_differently(outputs: Seq<PairOutputs>, faces: Seq<ComparedFaces>) -> nat
    decreases faces.len(),
{
    if faces.len() == 0 {
        0
    } else {
        let single = single_face(outputs, faces.last());
        let half = half_face(outputs, faces.last());
        decided_differently(outputs, faces.drop_last()) + if single.enrolled_score is Some
            && half.enrolled_score is Some && single.decision != half.decision {
            1nat
        } else {
            0
        }
    }
}

/// The faces in the records from `at` on that both arms have.
pub open spec fn faces_in_records(
    single: Seq<ImageRecord>,
    half: Seq<ImageRecord>,
    at: int,
) -> nat
    decreases single.len() - at,
{
    if at < 0 || at >= single.len() || at >= half.len() {
        0
    } else {
        single[at].faces@.len() + half[at].faces@.len() + faces_in_records(single, half, at + 1)
    }
}

/// The faces in the records of the pairs from `at` on that both arms have.
pub open spec fn faces_in_pairs(outputs: Seq<PairOutputs>, at: int) -> nat
    decreases outputs.len() - at,
{
    if at < 0 || at >= outputs.len() {
        0
    } else {
        faces_in_records(
            outputs[at].fp32->0.records@,
            outputs[at].fp16->0.records@,
            0,
        ) + faces_in_pairs(outputs, at + 1)
    }
}

/// Something is said of a match in a record of a pair.
pub open spec fn tells_of(
    faces: Seq<ComparedFaces>,
    pair: int,
    record: int,
    found: FaceMatch,
) -> bool {
    exists|n: int|
        0 <= n < faces.len() && (#[trigger] faces[n]).pair == pair && faces[n].record == record
            && faces[n].left == found.left && faces[n].right == found.right
}

/// One thing is said before another: by pair, by fixture, by face.
pub open spec fn said_before(a: ComparedFaces, b: ComparedFaces) -> bool {
    a.pair < b.pair || (a.pair == b.pair && (a.record < b.record || (a.record == b.record && a.left
        < b.left && a.right != b.right)))
}

/// A tally is sound: everything in it is measured, in order, each face at most
/// once, and flips are counted.
spec fn is_sound(
    tally: Tally,
    outputs: Seq<PairOutputs>,
    matcher: Matcher,
    decisions_evaluated: bool,
) -> bool {
    &&& forall|n: int|
        0 <= n < tally.faces.len() ==> has_both_faces(outputs, #[trigger] tally.faces[n])
            && are_measured(
            tally.faces[n],
            single_face(outputs, tally.faces[n]),
            half_face(outputs, tally.faces[n]),
            matcher,
            decisions_evaluated,
        )
    &&& forall|m: int, n: int|
        0 <= m < n < tally.faces.len() ==> said_before(
            #[trigger] tally.faces[m],
            #[trigger] tally.faces[n],
        )
    &&& tally.flips == decided_differently(outputs, tally.faces)
}

proof fn matches_are_measured(
    tally: Tally,
    outputs: Seq<PairOutputs>,
    pair: usize,
    record: usize,
    matches: Seq<FaceMatch>,
    matcher: Matcher,
    decisions_evaluated: bool,
    at: int,
)
    requires
        pair < outputs.len(),
        outputs[pair as int].fp32 is Some,
        outputs[pair as int].fp16 is Some,
        record < outputs[pair as int].fp32->0.records@.len(),
        record < outputs[pair as int].fp16->0.records@.len(),
        outputs[pair as int].fp32->0.records@[record as int].index == record,
        outputs[pair as int].fp16->0.records@[record as int].index == record,
        are_matches(
            overlap_matrix(
                outputs[pair as int].fp32->0.records@[record as int].faces@,
                outputs[pair as int].fp16->0.records@[record as int].faces@,
                matcher.measure,
            ),
            outputs[pair as int].fp16->0.records@[record as int].faces@.len(),
            matcher.floor,
            matches,
        ),
        0 <= at <= matches.len(),
        is_sound(tally, outputs, matcher, decisions_evaluated),
        forall|n: int|
            0 <= n < tally.faces.len() ==> (#[trigger] tally.faces[n]).pair < pair || (
            tally.faces[n].pair == pair && (tally.faces[n].record < record || (
            tally.faces[n].record == record && exists|i: int|
                0 <= i < at && (#[trigger] matches[i]).left == tally.faces[n].left
                    && matches[i].right == tally.faces[n].right))),
        forall|i: int|
            0 <= i < at ==> tells_of(
                tally.faces,
                pair as int,
                record as int,
                #[trigger] matches[i],
            ),
    ensures
        with_matches(
            tally,
            pair,
            record,
            matches,
            outputs[pair as int].fp32->0.records@[record as int].faces@,
            outputs[pair as int].fp16->0.records@[record as int].faces@,
            matcher,
            decisions_evaluated,
            at,
        ) matches Ok(next) ==> {
            &&& is_sound(next, outputs, matcher, decisions_evaluated)
            &&& next.unmatched == tally.unmatched
            &&& next.faces.len() == tally.faces.len() + matches.len() - at
            &&& next.faces.take(tally.faces.len() as int) == tally.faces
            &&& forall|n: int|
                0 <= n < next.faces.len() ==> (#[trigger] next.faces[n]).pair < pair || (
                next.faces[n].pair == pair && next.faces[n].record <= record)
            &&& forall|i: int|
                0 <= i < matches.len() ==> tells_of(
                    next.faces,
                    pair as int,
                    record as int,
                    #[trigger] matches[i],
                )
        },
    decreases matches.len() - at,
{
    let left = outputs[pair as int].fp32->0.records@[record as int].faces@;
    let right = outputs[pair as int].fp16->0.records@[record as int].faces@;
    if at < matches.len() {
        let found = matches[at];
        assert(found.left < left.len() && found.right < right.len());
        let next = with_match(
            tally,
            pair,
            record,
            found,
            left[found.left as int],
            right[found.right as int],
            matcher,
            decisions_evaluated,
        );
        if next is Ok {
            let after = next->Ok_0;
            let said = after.faces.last();
            assert(after.faces == tally.faces.push(said));
            assert(after.faces.drop_last() =~= tally.faces);
            assert(single_face(outputs, said) == left[found.left as int]);
            assert(half_face(outputs, said) == right[found.right as int]);
            assert(found.iou == overlap_matrix(
                left,
                right,
                matcher.measure,
            )[found.left as int][found.right as int]);
            assert(has_both_faces(outputs, said));
            assert(are_measured(
                said,
                left[found.left as int],
                right[found.right as int],
                matcher,
                decisions_evaluated,
            ));
            assert forall|m: int, n: int| 0 <= m < n < after.faces.len() implies said_before(
                #[trigger] after.faces[m],
                #[trigger] after.faces[n],
            ) by {
                assert(after.faces[m] == tally.faces[m]);
                if n < tally.faces.len() {
                    assert(after.faces[n] == tally.faces[n]);
                } else if tally.faces[m].pair == pair && tally.faces[m].record == record {
                    let i = choose|i: int|
                        0 <= i < at && (#[trigger] matches[i]).left == tally.faces[m].left
                            && matches[i].right == tally.faces[m].right;
                    assert(matches[i].left < matches[at].left);
                }
            }
            assert forall|n: int| 0 <= n < after.faces.len() implies has_both_faces(
                outputs,
                #[trigger] after.faces[n],
            ) && are_measured(
                after.faces[n],
                single_face(outputs, after.faces[n]),
                half_face(outputs, after.faces[n]),
                matcher,
                decisions_evaluated,
            ) by {
                if n < tally.faces.len() {
                    assert(after.faces[n] == tally.faces[n]);
                }
            }
            assert(is_sound(after, outputs, matcher, decisions_evaluated));
            assert forall|n: int| 0 <= n < after.faces.len() implies (
            #[trigger] after.faces[n]).pair < pair || (after.faces[n].pair == pair && (
            after.faces[n].record < record || (after.faces[n].record == record && exists|i: int|
                0 <= i < at + 1 && (#[trigger] matches[i]).left == after.faces[n].left
                    && matches[i].right == after.faces[n].right))) by {
                if n < tally.faces.len() {
                    assert(after.faces[n] == tally.faces[n]);
                } else {
                    assert(matches[at].left == after.faces[n].left);
                }
            }
            assert forall|i: int| 0 <= i < at + 1 implies tells_of(
                after.faces,
                pair as int,
                record as int,
                #[trigger] matches[i],
            ) by {
                if i < at {
                    assert(tells_of(tally.faces, pair as int, record as int, matches[i]));
                    let n = choose|n: int|
                        0 <= n < tally.faces.len() && (#[trigger] tally.faces[n]).pair == pair
                            && tally.faces[n].record == record && tally.faces[n].left
                            == matches[i].left && tally.faces[n].right == matches[i].right;
                    assert(after.faces[n] == tally.faces[n]);
                } else {
                    assert(after.faces[tally.faces.len() as int] == said);
                }
            }
            matches_are_measured(
                after,
                outputs,
                pair,
                record,
                matches,
                matcher,
                decisions_evaluated,
                at + 1,
            );
            let done = with_matches(
                after,
                pair,
                record,
                matches,
                left,
                right,
                matcher,
                decisions_evaluated,
                at + 1,
            );
            if done is Ok {
                let all = done->Ok_0.faces;
                assert(all.take(tally.faces.len() as int) =~= all.take(
                    after.faces.len() as int,
                ).take(tally.faces.len() as int));
                assert(after.faces.take(tally.faces.len() as int) =~= tally.faces);
            }
        }
    } else {
        assert(tally.faces.take(tally.faces.len() as int) =~= tally.faces);
    }
}

/// What is told of all records of a pair before one.
spec fn tells_of_records(
    faces: Seq<ComparedFaces>,
    outputs: Seq<PairOutputs>,
    matcher: Matcher,
    pair: int,
    records: int,
) -> bool {
    forall|record: int, i: int|
        #![trigger matched_at(outputs, matcher, pair, record)[i]]
        0 <= record < records && 0 <= i < matched_at(outputs, matcher, pair, record).len()
            ==> tells_of(faces, pair, record, matched_at(outputs, matcher, pair, record)[i])
}

/// The matches of a record that both arms of a pair have: of all ways to match its
/// faces, the one with the most overlap.
pub open spec fn matched_at(
    outputs: Seq<PairOutputs>,
    matcher: Matcher,
    pair: int,
    record: int,
) -> Seq<FaceMatch> {
    best_matches(
        overlap_matrix(
            outputs[pair].fp32->0.records@[record].faces@,
            outputs[pair].fp16->0.records@[record].faces@,
            matcher.measure,
        ),
        matcher.floor,
        matcher.sum,
    )
}

proof fn telling_goes_on(
    faces: Seq<ComparedFaces>,
    longer: Seq<ComparedFaces>,
    pair: int,
    record: int,
    found: FaceMatch,
)
    requires
        tells_of(faces, pair, record, found),
        faces.len() <= longer.len(),
        longer.take(faces.len() as int) == faces,
    ensures
        tells_of(longer, pair, record, found),
{
    let n = choose|n: int|
        0 <= n < faces.len() && (#[trigger] faces[n]).pair == pair && faces[n].record == record
            && faces[n].left == found.left && faces[n].right == found.right;
    assert(longer.take(faces.len() as int)[n] == longer[n]);
}

proof fn records_are_measured(
    tally: Tally,
    outputs: Seq<PairOutputs>,
    pair: usize,
    classes: Seq<FixtureClass>,
    matcher: Matcher,
    decisions_evaluated: bool,
    at: int,
)
    requires
        pair < outputs.len(),
        outputs[pair as int].fp32 is Some,
        outputs[pair as int].fp16 is Some,
        0 <= at <= outputs[pair as int].fp32->0.records@.len(),
        at <= outputs[pair as int].fp16->0.records@.len(),
        is_sound(tally, outputs, matcher, decisions_evaluated),
        forall|n: int|
            0 <= n < tally.faces.len() ==> (#[trigger] tally.faces[n]).pair < pair || (
            tally.faces[n].pair == pair && tally.faces[n].record < at),
        tells_of_records(tally.faces, outputs, matcher, pair as int, at),
    ensures
        with_records(
            tally,
            pair,
            outputs[pair as int].fp32->0.records@,
            outputs[pair as int].fp16->0.records@,
            classes,
            matcher,
            decisions_evaluated,
            at,
        ) matches Ok(next) ==> {
            &&& is_sound(next, outputs, matcher, decisions_evaluated)
            &&& next.unmatched + 2 * next.faces.len() == tally.unmatched + 2 * tally.faces.len()
                + faces_in_records(
                outputs[pair as int].fp32->0.records@,
                outputs[pair as int].fp16->0.records@,
                at,
            )
            &&& tally.faces.len() <= next.faces.len()
            &&& next.faces.take(tally.faces.len() as int) == tally.faces
            &&& forall|n: int|
                0 <= n < next.faces.len() ==> (#[trigger] next.faces[n]).pair <= pair
            &&& tells_of_records(
                next.faces,
                outputs,
                matcher,
                pair as int,
                shared_records(outputs[pair as int]) as int,
            )
        },
    decreases outputs[pair as int].fp32->0.records@.len() - at,
{
    let left = outputs[pair as int].fp32->0.records@;
    let right = outputs[pair as int].fp16->0.records@;
    if at < left.len() && at < right.len() {
        let added = with_record(
            tally,
            pair,
            at,
            left[at],
            right[at],
            classes[at],
            matcher,
            decisions_evaluated,
        );
        if added is Ok {
            let record = at as usize;
            assert(left[at].index == at && record == at);
            let matches = matched(matcher, left[at], right[at]);
            let matrix = overlap_matrix(left[at].faces@, right[at].faces@, matcher.measure);
            assert(matches == matched_at(outputs, matcher, pair as int, at));
            best_matches_are_matches(matrix, right[at].faces@.len(), matcher.floor, matcher.sum);
            matches_are_bounded(matrix, right[at].faces@.len(), matcher.floor, matches);
            let counted = Tally {
                unmatched: (tally.unmatched + left[at].faces@.len() + right[at].faces@.len() - 2
                    * matches.len()) as nat,
                ..tally
            };
            assert(is_sound(counted, outputs, matcher, decisions_evaluated));
            matches_are_measured(
                counted,
                outputs,
                pair,
                record,
                matches,
                matcher,
                decisions_evaluated,
                0,
            );
            let next = added->Ok_0;
            assert(tells_of_records(next.faces, outputs, matcher, pair as int, at + 1)) by {
                assert forall|earlier: int, i: int|
                    #![trigger matched_at(outputs, matcher, pair as int, earlier)[i]]
                    0 <= earlier < at + 1 && 0 <= i < matched_at(
                        outputs,
                        matcher,
                        pair as int,
                        earlier,
                    ).len() implies tells_of(
                    next.faces,
                    pair as int,
                    earlier,
                    matched_at(outputs, matcher, pair as int, earlier)[i],
                ) by {
                    if earlier < at {
                        telling_goes_on(
                            tally.faces,
                            next.faces,
                            pair as int,
                            earlier,
                            matched_at(outputs, matcher, pair as int, earlier)[i],
                        );
                    } else {
                        assert(matches[i] == matched_at(outputs, matcher, pair as int, at)[i]);
                    }
                }
            }
            records_are_measured(
                next,
                outputs,
                pair,
                classes,
                matcher,
                decisions_evaluated,
                at + 1,
            );
            let done = with_records(
                next,
                pair,
                left,
                right,
                classes,
                matcher,
                decisions_evaluated,
                at + 1,
            );
            if done is Ok {
                let all = done->Ok_0.faces;
                assert(all.take(tally.faces.len() as int) =~= all.take(
                    next.faces.len() as int,
                ).take(tally.faces.len() as int));
            }
        }
    } else {
        assert(tally.faces.take(tally.faces.len() as int) =~= tally.faces);
    }
}

/// What is told of all pairs before one.
spec fn tells_of_pairs(
    faces: Seq<ComparedFaces>,
    outputs: Seq<PairOutputs>,
    matcher: Matcher,
    pairs: int,
) -> bool {
    forall|pair: int|
        #![trigger outputs[pair]]
        0 <= pair < pairs ==> tells_of_records(
            faces,
            outputs,
            matcher,
            pair,
            shared_records(outputs[pair]) as int,
        )
}

proof fn pairs_are_measured(
    tally: Tally,
    outputs: Seq<PairOutputs>,
    allow_mixed: bool,
    classes: Seq<FixtureClass>,
    matcher: Matcher,
    decisions_evaluated: bool,
    at: int,
)
    requires
        outputs.len() <= usize::MAX,
        0 <= at <= outputs.len(),
        is_sound(tally, outputs, matcher, decisions_evaluated),
        forall|n: int| 0 <= n < tally.faces.len() ==> (#[trigger] tally.faces[n]).pair < at,
        tells_of_pairs(tally.faces, outputs, matcher, at),
    ensures
        with_pairs(
            tally,
            outputs,
            allow_mixed,
            classes,
            matcher,
            decisions_evaluated,
            at,
        ) matches Ok(next) ==> {
            &&& is_sound(next, outputs, matcher, decisions_evaluated)
            &&& next.unmatched + 2 * next.faces.len() == tally.unmatched + 2 * tally.faces.len()
                + faces_in_pairs(outputs, at)
            &&& tells_of_pairs(next.faces, outputs, matcher, outputs.len() as int)
            &&& forall|pair: int|
                at <= pair < outputs.len() ==> (#[trigger] outputs[pair]).fp32 is Some
                    && outputs[pair].fp16 is Some
        },
    decreases outputs.len() - at,
{
    if at < outputs.len() {
        let added = with_pair(
            tally,
            at,
            outputs[at],
            allow_mixed,
            classes,
            matcher,
            decisions_evaluated,
        );
        if added is Ok {
            let pair = at as usize;
            assert(outputs[at].fp32 is Some && outputs[at].fp16 is Some);
            records_are_measured(tally, outputs, pair, classes, matcher, decisions_evaluated, 0);
            let next = added->Ok_0;
            assert(tells_of_pairs(next.faces, outputs, matcher, at + 1)) by {
                assert forall|earlier: int|
                    #![trigger outputs[earlier]]
                    0 <= earlier < at + 1 implies tells_of_records(
                    next.faces,
                    outputs,
                    matcher,
                    earlier,
                    shared_records(outputs[earlier]) as int,
                ) by {
                    if earlier < at {
                        let records = shared_records(outputs[earlier]) as int;
                        assert forall|record: int, i: int|
                            #![trigger matched_at(outputs, matcher, earlier, record)[i]]
                            0 <= record < records && 0 <= i < matched_at(
                                outputs,
                                matcher,
                                earlier,
                                record,
                            ).len() implies tells_of(
                            next.faces,
                            earlier,
                            record,
                            matched_at(outputs, matcher, earlier, record)[i],
                        ) by {
                            telling_goes_on(
                                tally.faces,
                                next.faces,
                                earlier,
                                record,
                                matched_at(outputs, matcher, earlier, record)[i],
                            );
                        }
                    }
                }
            }
            pairs_are_measured(
                next,
                outputs,
                allow_mixed,
                classes,
                matcher,
                decisions_evaluated,
                at + 1,
            );
        }
    }
}

/// A comparison measures both arms: everything it says is measured on a face of the
/// single-precision arm and one of the half-precision arm, of the same fixture; no
/// face is compared twice; flips are the faces that were decided differently; and
/// every face of a fixture that both arms have is compared or counted as unmatched.
pub proof fn comparisons_measure_both_arms(
    outputs: Seq<PairOutputs>,
    allow_mixed: bool,
    classes: Seq<FixtureClass>,
    matcher: Matcher,
    decisions_evaluated: bool,
    tally: Tally,
)
    requires
        outputs.len() <= usize::MAX,
        with_pairs(
            nothing_compared(),
            outputs,
            allow_mixed,
            classes,
            matcher,
            decisions_evaluated,
            0,
        ) == Ok::<Tally, RecordError>(tally),
    ensures
        forall|n: int|
            0 <= n < tally.faces.len() ==> has_both_faces(outputs, #[trigger] tally.faces[n])
                && are_measured(
                tally.faces[n],
                single_face(outputs, tally.faces[n]),
                half_face(outputs, tally.faces[n]),
                matcher,
                decisions_evaluated,
            ),
        forall|m: int, n: int|
            0 <= m < n < tally.faces.len() ==> said_before(
                #[trigger] tally.faces[m],
                #[trigger] tally.faces[n],
            ),
        tally.flips == decided_differently(outputs, tally.faces),
        tally.unmatched + 2 * tally.faces.len() == faces_in_pairs(outputs, 0),
{
    pairs_are_measured(
        nothing_compared(),
        outputs,
        allow_mixed,
        classes,
        matcher,
        decisions_evaluated,
        0,
    );
}

/// A comparison leaves no match out: of every fixture that both arms of a pair have,
/// all matches of the assignment with the most overlap are compared.
pub proof fn comparisons_leave_no_match_out(
    outputs: Seq<PairOutputs>,
    allow_mixed: bool,
    classes: Seq<FixtureClass>,
    matcher: Matcher,
    decisions_evaluated: bool,
    tally: Tally,
    pair: int,
    record: int,
)
    requires
        outputs.len() <= usize::MAX,
        with_pairs(
            nothing_compared(),
            outputs,
            allow_mixed,
            classes,
            matcher,
            decisions_evaluated,
            0,
        ) == Ok::<Tally, RecordError>(tally),
        0 <= pair < outputs.len(),
        0 <= record < outputs[pair].fp32->0.records@.len(),
        record < outputs[pair].fp16->0.records@.len(),
    ensures
        outputs[pair].fp32 is Some,
        outputs[pair].fp16 is Some,
        forall|i: int|
            0 <= i < matched_at(outputs, matcher, pair, record).len() ==> tells_of(
                tally.faces,
                pair,
                record,
                #[trigger] matched_at(outputs, matcher, pair, record)[i],
            ),
{
    pairs_are_measured(
        nothing_compared(),
        outputs,
        allow_mixed,
        classes,
        matcher,
        decisions_evaluated,
        0,
    );
    assert(outputs[pair].fp32 is Some && outputs[pair].fp16 is Some);
    assert(tells_of_records(
        tally.faces,
        outputs,
        matcher,
        pair,
        shared_records(outputs[pair]) as int,
    ));
}

} // verus!
