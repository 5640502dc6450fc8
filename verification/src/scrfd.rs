//! The faces that the detector's outputs stand for.
use crate::detection::{
    candidates_are_the_anchors_above, candidates_lie_in_the_map, candidates_of, in_place, is_kept_in, is_placed, keeps_best,
    kept_faces_are_in_order, nms, scrfd_candidates, suppressing_again_changes_nothing, tells,
    Candidate,
};
use crate::float_bits::{all_finite, at_most32, finite32, is_less32, less32};
use crate::inference::{
    anchors_at, scrfd_output_error, validate_scrfd_outputs, InferenceError, ModelOutput,
    SCRFD_OUTPUT_COUNT,
};
use vstd::prelude::*;
use vstd::slice::slice_subrange;

verus! {

/// The bits of the overlap beyond which two faces are the same, four tenths.
pub const NMS_OVERLAP: u32 = 0x3ecc_cccd;

/// A face that was detected. Numbers with a fraction are kept by their bits.
#[derive(Debug)]
pub struct DetectedFace {
    pub bbox: [i32; 4],
    pub landmarks: Vec<u32>,
    pub score: u32,
}

#[verifier::ext_equal]
pub struct FaceView {
    pub bbox: [i32; 4],
    pub landmarks: Seq<u32>,
    pub score: u32,
}

impl View for DetectedFace {
    type V = FaceView;

    open spec fn view(&self) -> FaceView {
        FaceView { bbox: self.bbox, landmarks: self.landmarks@, score: self.score }
    }
}

pub open spec fn face_views(faces: Seq<DetectedFace>) -> Seq<FaceView> {
    faces.map_values(|face: DetectedFace| face@)
}

/// Where an anchor stands: the stride, and the cell in the map of that stride.
#[derive(Clone, Copy, Debug, PartialEq, Eq, Structural)]
pub struct Anchor {
    pub stride: usize,
    pub cell_x: usize,
    pub cell_y: usize,
}

/// What the four numbers of a box and the ten of landmarks mean at an anchor.
pub struct Decoding {
    pub place: spec_fn(Anchor, Seq<u32>, Seq<u32>) -> ([i32; 4], Seq<u32>),
    pub overlap: spec_fn([i32; 4], [i32; 4]) -> u32,
}

/// The functions that decode and compare faces do as a decoding says.
pub open spec fn decodes<
    F: Fn(Anchor, &[u32], &[u32]) -> ([i32; 4], Vec<u32>),
    G: Fn([i32; 4], [i32; 4]) -> u32,
>(decode: F, overlap: G, decoding: Decoding) -> bool {
    &&& forall|anchor: Anchor, corners: &[u32], points: &[u32], face: ([i32; 4], Vec<u32>)|
     #[trigger]
        call_ensures(decode, (anchor, corners, points), face) ==> (face.0, face.1@) == (
        decoding.place)(anchor, corners@, points@)
    &&& forall|a: [i32; 4], b: [i32; 4], bits: u32| #[trigger]
        call_ensures(overlap, (a, b), bits) ==> bits == (decoding.overlap)(a, b)
}

/// The functions that decode and compare faces work on everything.
pub open spec fn can_decode<
    F: Fn(Anchor, &[u32], &[u32]) -> ([i32; 4], Vec<u32>),
    G: Fn([i32; 4], [i32; 4]) -> u32,
>(decode: F, overlap: G) -> bool {
    &&& forall|anchor: Anchor, corners: &[u32], points: &[u32]| #[trigger]
        call_requires(decode, (anchor, corners, points))
    &&& forall|a: [i32; 4], b: [i32; 4]| #[trigger] call_requires(overlap, (a, b))
}

/// The face at a candidate: anchors have four numbers of a box, and ten of
/// landmarks.
pub open spec fn face_at(
    candidate: Candidate,
    stride: usize,
    boxes: Seq<u32>,
    landmarks: Seq<u32>,
    decoding: Decoding,
) -> FaceView {
    let at = candidate.index as int;
    let found = (decoding.place)(
        Anchor { stride, cell_x: candidate.cell_x, cell_y: candidate.cell_y },
        boxes.subrange(4 * at, 4 * at + 4),
        landmarks.subrange(10 * at, 10 * at + 10),
    );
    FaceView { bbox: found.0, landmarks: found.1, score: candidate.score }
}

/// The bits of an output.
pub open spec fn output_bits(outputs: Seq<Option<ModelOutput>>, index: int) -> Seq<u32> {
    outputs[index]->0.bits()->0
}

/// The faces at a stride, of which the outputs are the scores, the boxes and the
/// landmarks.
pub open spec fn stride_faces(
    outputs: Seq<Option<ModelOutput>>,
    place: int,
    stride: usize,
    det_w: usize,
    det_h: usize,
    threshold: u32,
    decoding: Decoding,
) -> Seq<FaceView> {
    let scores = output_bits(outputs, place);
    candidates_of(
        scores,
        scores.len(),
        threshold,
        det_w / stride,
        det_h / stride,
    ).map_values(
        |candidate: Candidate|
            face_at(
                candidate,
                stride,
                output_bits(outputs, place + 3),
                output_bits(outputs, place + 6),
                decoding,
            ),
    )
}

/// The faces at all strides.
pub open spec fn all_faces(
    outputs: Seq<Option<ModelOutput>>,
    det_w: usize,
    det_h: usize,
    threshold: u32,
    decoding: Decoding,
) -> Seq<FaceView> {
    stride_faces(outputs, 0, 8, det_w, det_h, threshold, decoding) + stride_faces(
        outputs,
        1,
        16,
        det_w,
        det_h,
        threshold,
        decoding,
    ) + stride_faces(outputs, 2, 32, det_w, det_h, threshold, decoding)
}

/// The scores of faces.
pub open spec fn scores_of(faces: Seq<FaceView>) -> Seq<u32> {
    faces.map_values(|face: FaceView| face.score)
}

/// Which faces overlap beyond the limit.
pub open spec fn same_in(
    faces: Seq<FaceView>,
    overlap: spec_fn([i32; 4], [i32; 4]) -> u32,
) -> spec_fn(usize, usize) -> bool {
    |a: usize, b: usize|
        less32(NMS_OVERLAP, overlap(faces[a as int].bbox, faces[b as int].bbox))
}

/// Faces are the best of those that were found: of faces that overlap beyond the
/// limit only the one with the highest score is among them.
pub open spec fn are_best(
    faces: Seq<FaceView>,
    all: Seq<FaceView>,
    overlap: spec_fn([i32; 4], [i32; 4]) -> u32,
) -> bool {
    exists|kept: Seq<usize>| #[trigger]
        keeps_best(scores_of(all), same_in(all, overlap), kept) && faces == kept.map_values(|index: usize| all[index as int])
}

/// The detector's outputs are valid.
pub open spec fn are_valid(
    outputs: Seq<Option<ModelOutput>>,
    det_w: usize,
    det_h: usize,
) -> bool {
    outputs.len() == SCRFD_OUTPUT_COUNT && forall|i: int|
        0 <= i < outputs.len() ==> #[trigger] scrfd_output_error(outputs, i, det_w, det_h) is None
}

proof fn valid_outputs_fit(
    outputs: Seq<Option<ModelOutput>>,
    det_w: usize,
    det_h: usize,
    place: int,
    stride: usize,
)
    requires
        are_valid(outputs, det_w, det_h),
        (place == 0 && stride == 8) || (place == 1 && stride == 16) || (place == 2 && stride == 32),
    ensures
        outputs[place] is Some,
        outputs[place + 3] is Some,
        outputs[place + 6] is Some,
        outputs[place]->0.values is Some,
        outputs[place + 3]->0.values is Some,
        outputs[place + 6]->0.values is Some,
        0 < det_w / stride,
        (det_w / stride) * (det_h / stride) <= usize::MAX,
        all_finite(output_bits(outputs, place)),
        output_bits(outputs, place + 3).len() == 4 * output_bits(outputs, place).len(),
        output_bits(outputs, place + 6).len() == 10 * output_bits(outputs, place).len(),
{
    assert(scrfd_output_error(outputs, place, det_w, det_h) is None);
    assert(scrfd_output_error(outputs, place + 3, det_w, det_h) is None);
    assert(scrfd_output_error(outputs, place + 6, det_w, det_h) is None);
    let cells = (det_w / stride) * (det_h / stride);
    assert(0 <= cells) by (nonlinear_arith)
        requires
            cells == (det_w / stride) * (det_h / stride),
            stride > 0,
    ;
    assert(anchors_at(det_w, det_h, stride) == cells * 2);
    assert(cells * 2 * 1 == 2 * cells && cells * 2 * 4 == 8 * cells && cells * 2 * 10 == 20
        * cells) by (nonlinear_arith);
}

fn bits_of(output: &Option<ModelOutput>) -> (bits: Option<&Vec<u32>>)
    ensures
        match bits {
            Some(values) => *output matches Some(found) && found.values == Some(*values),
            None => *output matches Some(found) ==> found.values is None,
        },
{
    match output {
        Some(found) => match &found.values {
            Some(values) => Some(values),
            None => None,
        },
        None => None,
    }
}

fn push_stride_faces<
    F: Fn(Anchor, &[u32], &[u32]) -> ([i32; 4], Vec<u32>),
    G: Fn([i32; 4], [i32; 4]) -> u32,
>(
    faces: &mut Vec<DetectedFace>,
    outputs: &Vec<Option<ModelOutput>>,
    place: usize,
    stride: usize,
    det_w: usize,
    det_h: usize,
    threshold: u32,
    decode: &F,
    overlap: &G,
)
    requires
        are_valid(outputs@, det_w, det_h),
        can_decode(*decode, *overlap),
        (place == 0 && stride == 8) || (place == 1 && stride == 16) || (place == 2 && stride == 32),
        forall|i: int| 0 <= i < old(faces)@.len() ==> finite32((#[trigger] old(faces)@[i]).score),
    ensures
        forall|decoding: Decoding| #[trigger]
            decodes(*decode, *overlap, decoding) ==> face_views(final(faces)@) == face_views(
                old(faces)@,
            ) + stride_faces(outputs@, place as int, stride, det_w, det_h, threshold, decoding),
        forall|i: int|
            0 <= i < final(faces)@.len() ==> finite32((#[trigger] final(faces)@[i]).score),
{
    proof {
        valid_outputs_fit(outputs@, det_w, det_h, place as int, stride);
    }
    let ghost start = face_views(faces@);
    let (scores, boxes, landmarks) = match (
        bits_of(&outputs[place]),
        bits_of(&outputs[place + 3]),
        bits_of(&outputs[place + 6]),
    ) {
        (Some(scores), Some(boxes), Some(landmarks)) => (scores, boxes, landmarks),
        _ => {
            assert(false);
            return ;
        },
    };
    let fmap_w: usize = det_w / stride;
    let fmap_h: usize = det_h / stride;
    let candidates = scrfd_candidates(scores.as_slice(), threshold, fmap_w, fmap_h);
    let box_count: usize = boxes.len();
    let landmark_count: usize = landmarks.len();
    proof {
        assert(scores@.len() <= 4 * scores@.len());
        candidates_lie_in_the_map(scores@, scores@.len(), threshold, fmap_w, fmap_h);
        assert forall|decoding: Decoding| #[trigger]
            decodes(*decode, *overlap, decoding) implies face_views(faces@) == start + stride_faces(
            outputs@,
            place as int,
            stride,
            det_w,
            det_h,
            threshold,
            decoding,
        ).take(0) by {
            assert(face_views(faces@) =~= start + stride_faces(
                outputs@,
                place as int,
                stride,
                det_w,
                det_h,
                threshold,
                decoding,
            ).take(0));
        }
    }
    let mut index: usize = 0;
    while index < candidates.len()
        invariant
            index <= candidates@.len(),
            can_decode(*decode, *overlap),
            candidates@ == candidates_of(scores@, scores@.len(), threshold, fmap_w, fmap_h),
            fmap_w == det_w / stride,
            fmap_h == det_h / stride,
            output_bits(outputs@, place as int) == scores@,
            output_bits(outputs@, place + 3) == boxes@,
            output_bits(outputs@, place + 6) == landmarks@,
            boxes@.len() == 4 * scores@.len(),
            landmarks@.len() == 10 * scores@.len(),
            box_count == boxes@.len(),
            landmark_count == landmarks@.len(),
            all_finite(scores@),
            forall|i: int|
                0 <= i < candidates@.len() ==> is_placed(
                    #[trigger] candidates@[i],
                    scores@,
                    scores@.len(),
                    threshold,
                    fmap_w,
                    fmap_h,
                ),
            forall|i: int| 0 <= i < faces@.len() ==> finite32((#[trigger] faces@[i]).score),
            forall|decoding: Decoding| #[trigger]
                decodes(*decode, *overlap, decoding) ==> face_views(faces@) == start
                    + stride_faces(
                    outputs@,
                    place as int,
                    stride,
                    det_w,
                    det_h,
                    threshold,
                    decoding,
                ).take(index as int),
        decreases candidates.len() - index,
    {
        let candidate: Candidate = candidates[index];
        assert(is_placed(
            candidates@[index as int],
            scores@,
            scores@.len(),
            threshold,
            fmap_w,
            fmap_h,
        ));
        let at: usize = candidate.index;
        assert(finite32(scores@[at as int]));
        let corners = slice_subrange(boxes.as_slice(), 4 * at, 4 * at + 4);
        let points = slice_subrange(landmarks.as_slice(), 10 * at, 10 * at + 10);
        let anchor = Anchor { stride, cell_x: candidate.cell_x, cell_y: candidate.cell_y };
        let (bbox, marks) = decode(anchor, corners, points);
        let ghost before = face_views(faces@);
        let ghost marked = marks@;
        faces.push(DetectedFace { bbox, landmarks: marks, score: candidate.score });
        let ghost added = FaceView { bbox, landmarks: marked, score: candidate.score };
        proof {
            assert(face_views(faces@) =~= before.push(added));
            assert forall|decoding: Decoding| #[trigger]
                decodes(*decode, *overlap, decoding) implies face_views(faces@) == start
                + stride_faces(
                outputs@,
                place as int,
                stride,
                det_w,
                det_h,
                threshold,
                decoding,
            ).take(index + 1) by {
                let wanted = stride_faces(
                    outputs@,
                    place as int,
                    stride,
                    det_w,
                    det_h,
                    threshold,
                    decoding,
                );
                assert(added == face_at(candidate, stride, boxes@, landmarks@, decoding));
                assert(wanted[index as int] == added);
                assert(start + wanted.take(index + 1) =~= (start + wanted.take(index as int)).push(
                    added,
                ));
            }
        }
        index = index + 1;
    }
    proof {
        assert forall|decoding: Decoding| #[trigger]
            decodes(*decode, *overlap, decoding) implies face_views(faces@) == start + stride_faces(
            outputs@,
            place as int,
            stride,
            det_w,
            det_h,
            threshold,
            decoding,
        ) by {
            let wanted = stride_faces(
                outputs@,
                place as int,
                stride,
                det_w,
                det_h,
                threshold,
                decoding,
            );
            assert(wanted.take(index as int) =~= wanted);
        }
    }
}

fn copy_face(face: &DetectedFace) -> (copy: DetectedFace)
    ensures
        copy@ == face@,
{
    let mut landmarks: Vec<u32> = Vec::new();
    landmarks.extend_from_slice(face.landmarks.as_slice());
    assert(landmarks@ =~= face.landmarks@);
    DetectedFace { bbox: face.bbox, landmarks, score: face.score }
}

spec fn can_measure<G: Fn([i32; 4], [i32; 4]) -> u32>(overlap: &G) -> bool {
    forall|a: [i32; 4], b: [i32; 4]| #[trigger] call_requires(*overlap, (a, b))
}

spec fn is_told<G: Fn([i32; 4], [i32; 4]) -> u32>(
    overlap: &G,
    a: [i32; 4],
    b: [i32; 4],
    answer: bool,
) -> bool {
    exists|bits: u32| #[trigger]
        call_ensures(*overlap, (a, b), bits) && answer == less32(NMS_OVERLAP, bits)
}

fn overlaps<G: Fn([i32; 4], [i32; 4]) -> u32>(overlap: &G, a: [i32; 4], b: [i32; 4]) -> (answer:
    bool)
    requires
        can_measure(overlap),
    ensures
        is_told(overlap, a, b, answer),
{
    let bits: u32 = overlap(a, b);
    is_less32(NMS_OVERLAP, bits)
}

fn keep_best<
    F: Fn(Anchor, &[u32], &[u32]) -> ([i32; 4], Vec<u32>),
    G: Fn([i32; 4], [i32; 4]) -> u32,
>(faces: &Vec<DetectedFace>, decode: &F, overlap: &G) -> (best: Vec<DetectedFace>)
    requires
        can_decode(*decode, *overlap),
        forall|i: int| 0 <= i < faces@.len() ==> finite32((#[trigger] faces@[i]).score),
    ensures
        forall|decoding: Decoding| #[trigger]
            decodes(*decode, *overlap, decoding) ==> are_best(
                face_views(best@),
                face_views(faces@),
                decoding.overlap,
            ),
{
    let ghost all = face_views(faces@);
    let mut scores: Vec<u32> = Vec::new();
    let mut index: usize = 0;
    while index < faces.len()
        invariant
            index <= faces@.len(),
            scores@.len() == index,
            forall|i: int| 0 <= i < faces@.len() ==> finite32((#[trigger] faces@[i]).score),
            forall|i: int| 0 <= i < index ==> #[trigger] scores@[i] == faces@[i].score,
            forall|i: int| 0 <= i < index ==> finite32(#[trigger] scores@[i]),
        decreases faces.len() - index,
    {
        scores.push(faces[index].score);
        index = index + 1;
    }
    assert(scores@ =~= scores_of(all));
    let same = |a: usize, b: usize| -> (answer: bool)
        requires
            a < faces@.len(),
            b < faces@.len(),
            can_measure(overlap),
        ensures
            a < faces@.len(),
            b < faces@.len(),
            is_told(overlap, faces@[a as int].bbox, faces@[b as int].bbox, answer),
        { overlaps(overlap, faces[a].bbox, faces[b].bbox) };
    let kept = nms(&scores, &same);
    let mut best: Vec<DetectedFace> = Vec::new();
    let mut at: usize = 0;
    while at < kept.len()
        invariant
            at <= kept@.len(),
            forall|i: int| 0 <= i < kept@.len() ==> (#[trigger] kept@[i]) < faces@.len(),
            best@.len() == at,
            forall|i: int|
                0 <= i < at ==> #[trigger] face_views(best@)[i] == face_views(
                    faces@,
                )[kept@[i] as int],
        decreases kept.len() - at,
    {
        assert(kept@[at as int] < faces@.len());
        let ghost before = face_views(best@);
        best.push(copy_face(&faces[kept[at]]));
        assert(face_views(best@) =~= before.push(face_views(faces@)[kept@[at as int] as int]));
        at = at + 1;
    }
    proof {
        assert forall|decoding: Decoding| #[trigger]
            decodes(*decode, *overlap, decoding) implies are_best(
            face_views(best@),
            all,
            decoding.overlap,
        ) by {
            let rule = same_in(all, decoding.overlap);
            assert forall|a: usize, b: usize, answer: bool| #[trigger]
                call_ensures(same, (a, b), answer) implies answer == rule(a, b) by {
                let bits = choose|bits: u32| #[trigger]
                    call_ensures(*overlap, (faces@[a as int].bbox, faces@[b as int].bbox), bits)
                        && answer == less32(NMS_OVERLAP, bits);
                assert(bits == (decoding.overlap)(
                    faces@[a as int].bbox,
                    faces@[b as int].bbox,
                ));
            }
            assert(tells(same, rule));
            assert(keeps_best(scores@, rule, kept@));
            assert(face_views(best@) =~= kept@.map_values(|index: usize| all[index as int]));
        }
    }
    best
}

/// The faces that the detector's outputs stand for, the highest score first.
/// The outputs must be valid. `decode` gives the box and the landmarks at an
/// anchor, and `overlap` the bits of how much two boxes overlap.
pub fn postprocess_scrfd<
    F: Fn(Anchor, &[u32], &[u32]) -> ([i32; 4], Vec<u32>),
    G: Fn([i32; 4], [i32; 4]) -> u32,
>(
    outputs: &Vec<Option<ModelOutput>>,
    det_w: usize,
    det_h: usize,
    threshold: u32,
    decode: &F,
    overlap: &G,
) -> (faces: Result<Vec<DetectedFace>, InferenceError>)
    requires
        can_decode(*decode, *overlap),
    ensures
        faces is Ok <==> are_valid(outputs@, det_w, det_h),
        faces matches Ok(found) ==> forall|decoding: Decoding| #[trigger]
            decodes(*decode, *overlap, decoding) ==> are_best(
                face_views(found@),
                all_faces(outputs@, det_w, det_h, threshold, decoding),
                decoding.overlap,
            ),
        faces matches Err(error) ==> if outputs@.len() != SCRFD_OUTPUT_COUNT {
            error == (InferenceError::OutputCount {
                model: "SCRFD",
                actual: outputs@.len() as usize,
                expected: SCRFD_OUTPUT_COUNT,
            })
        } else {
            exists|i: int|
                0 <= i < outputs@.len() && #[trigger] scrfd_output_error(outputs@, i, det_w, det_h)
                    == Some(error) && forall|j: int|
                    0 <= j < i ==> #[trigger] scrfd_output_error(outputs@, j, det_w, det_h)
                        is None
        },
{
    match validate_scrfd_outputs(outputs, det_w, det_h) {
        Ok(()) => {},
        Err(error) => {
            return Err(error);
        },
    }
    let mut faces: Vec<DetectedFace> = Vec::new();
    assert(face_views(faces@) =~= Seq::<FaceView>::empty());
    push_stride_faces(&mut faces, outputs, 0, 8, det_w, det_h, threshold, decode, overlap);
    push_stride_faces(&mut faces, outputs, 1, 16, det_w, det_h, threshold, decode, overlap);
    push_stride_faces(&mut faces, outputs, 2, 32, det_w, det_h, threshold, decode, overlap);
    let best = keep_best(&faces, decode, overlap);
    proof {
        assert forall|decoding: Decoding| #[trigger]
            decodes(*decode, *overlap, decoding) implies are_best(
            face_views(best@),
            all_faces(outputs@, det_w, det_h, threshold, decoding),
            decoding.overlap,
        ) by {
            assert(face_views(faces@) =~= all_faces(outputs@, det_w, det_h, threshold, decoding));
        }
    }
    Ok(best)
}

/// No two faces that are kept overlap beyond the limit, and every face that was
/// found is kept or overlaps one that is.
pub proof fn kept_faces_are_apart(
    faces: Seq<FaceView>,
    all: Seq<FaceView>,
    overlap: spec_fn([i32; 4], [i32; 4]) -> u32,
)
    requires
        are_best(faces, all, overlap),
        all.len() <= usize::MAX,
        forall|i: int| 0 <= i < all.len() ==> finite32((#[trigger] all[i]).score),
    ensures
        forall|i: int, j: int|
            0 <= i < j < faces.len() ==> !less32(
                NMS_OVERLAP,
                overlap((#[trigger] faces[i]).bbox, (#[trigger] faces[j]).bbox),
            ),
        forall|k: int|
            0 <= k < all.len() ==> is_represented(#[trigger] all[k], faces, overlap),
{
    let same = same_in(all, overlap);
    let scores = scores_of(all);
    let kept = choose|kept: Seq<usize>| #[trigger]
        keeps_best(scores, same, kept) && faces == kept.map_values(
            |index: usize| all[index as int],
        );
    let order = choose|order: Seq<usize>| #[trigger] is_kept_in(order, scores, same, kept);
    crate::detection::suppression_keeps_one_of_each(order, scores, same, kept);
    crate::detection::scores_are_ordered(scores);
    crate::order::orders_are_complete(
        order,
        scores.len(),
        |a: int, b: int| crate::detection::scored_before(scores, a, b),
    );
    assert forall|i: int, j: int| 0 <= i < j < faces.len() implies !less32(
        NMS_OVERLAP,
        overlap((#[trigger] faces[i]).bbox, (#[trigger] faces[j]).bbox),
    ) by {
        assert(!same(kept[i], kept[j]));
    }
    assert forall|k: int| 0 <= k < all.len() implies is_represented(
        #[trigger] all[k],
        faces,
        overlap,
    ) by {
        assert(order.contains(k as usize));
        let at = choose|at: int| 0 <= at < order.len() && order[at] == k as usize;
        if kept.contains(order[at]) {
            let i = choose|i: int| 0 <= i < kept.len() && kept[i] == order[at];
            assert(faces[i] == all[k]);
        } else {
            let i = choose|i: int| 0 <= i < kept.len() && same(#[trigger] kept[i], order[at]);
            assert(faces[i] == all[kept[i] as int]);
        }
    }
}

/// A face is kept, or overlaps one that is beyond the limit.
pub open spec fn is_represented(
    face: FaceView,
    faces: Seq<FaceView>,
    overlap: spec_fn([i32; 4], [i32; 4]) -> u32,
) -> bool {
    exists|i: int|
        0 <= i < faces.len() && ((#[trigger] faces[i]) == face || less32(
            NMS_OVERLAP,
            overlap(faces[i].bbox, face.bbox),
        ))
}

/// Looking for the best among the best faces changes nothing.
pub proof fn the_best_faces_stay(
    faces: Seq<FaceView>,
    all: Seq<FaceView>,
    overlap: spec_fn([i32; 4], [i32; 4]) -> u32,
    again: Seq<FaceView>,
)
    requires
        are_best(faces, all, overlap),
        all.len() <= usize::MAX,
    ensures
        are_best(again, faces, overlap) <==> again == faces,
{
    let same = same_in(all, overlap);
    let scores = scores_of(all);
    let kept = choose|kept: Seq<usize>| #[trigger]
        keeps_best(scores, same, kept) && faces == kept.map_values(
            |index: usize| all[index as int],
        );
    let order = choose|order: Seq<usize>| #[trigger] is_kept_in(order, scores, same, kept);
    kept_faces_are_in_order(order, scores, same, order.len());
    let place = in_place(kept.len());
    let kept_scores = scores_of(faces);
    let kept_same = same_in(faces, overlap);
    assert(place.map_values(|index: usize| faces[index as int]) =~= faces);
    suppressing_again_changes_nothing(scores, same, kept, kept_scores, kept_same, place);
    if are_best(again, faces, overlap) {
        let twice = choose|twice: Seq<usize>| #[trigger]
            keeps_best(kept_scores, kept_same, twice) && again == twice.map_values(
                |index: usize| faces[index as int],
            );
        suppressing_again_changes_nothing(scores, same, kept, kept_scores, kept_same, twice);
    }
}

/// The stride of each of the three maps that the detector looks at.
pub open spec fn stride_of_map(map: int) -> usize {
    if map == 0 {
        8
    } else if map == 1 {
        16
    } else {
        32
    }
}

/// What the detector said at an anchor of a map: the scores are in one of the
/// first three outputs, the box in one of the next three and the landmarks in one
/// of the last. Two anchors share a cell, and cells are counted row by row.
pub open spec fn face_at_anchor(
    outputs: Seq<Option<ModelOutput>>,
    map: int,
    anchor: int,
    det_w: usize,
    decoding: Decoding,
) -> FaceView {
    let columns = det_w / stride_of_map(map);
    let found = (decoding.place)(
        Anchor {
            stride: stride_of_map(map),
            cell_x: (anchor / 2 % columns as int) as usize,
            cell_y: (anchor / 2 / columns as int) as usize,
        },
        outputs[map + 3]->0.values->0@.subrange(4 * anchor, 4 * anchor + 4),
        outputs[map + 6]->0.values->0@.subrange(10 * anchor, 10 * anchor + 10),
    );
    FaceView {
        bbox: found.0,
        landmarks: found.1,
        score: outputs[map]->0.values->0@[anchor],
    }
}

/// The detector's score at an anchor of a map is above a threshold.
pub open spec fn scores_above(
    outputs: Seq<Option<ModelOutput>>,
    map: int,
    anchor: int,
    threshold: u32,
) -> bool {
    &&& 0 <= map < 3
    &&& 0 <= anchor < outputs[map]->0.values->0@.len()
    &&& !at_most32(outputs[map]->0.values->0@[anchor], threshold)
}

/// Valid outputs have one score, four numbers of a box and ten of landmarks for
/// each of two anchors in each cell, and all of them are numbers.
pub proof fn valid_outputs_have_their_anchors(
    outputs: Seq<Option<ModelOutput>>,
    det_w: usize,
    det_h: usize,
    map: int,
)
    requires
        are_valid(outputs, det_w, det_h),
        0 <= map < 3,
    ensures
        outputs.len() == 9,
        forall|i: int| 0 <= i < 9 ==> (#[trigger] outputs[i]) is Some && outputs[i]->0.values is Some,
        0 < det_w / stride_of_map(map),
        outputs[map]->0.values->0@.len() == 2 * ((det_w / stride_of_map(map)) * (det_h
            / stride_of_map(map))),
        outputs[map + 3]->0.values->0@.len() == 8 * ((det_w / stride_of_map(map)) * (det_h
            / stride_of_map(map))),
        outputs[map + 6]->0.values->0@.len() == 20 * ((det_w / stride_of_map(map)) * (det_h
            / stride_of_map(map))),
        forall|i: int|
            0 <= i < outputs[map]->0.values->0@.len() ==> finite32(
                #[trigger] outputs[map]->0.values->0@[i],
            ),
{
    let stride = stride_of_map(map);
    valid_outputs_fit(outputs, det_w, det_h, map, stride);
    assert(scrfd_output_error(outputs, map, det_w, det_h) is None);
    let cells = (det_w / stride) * (det_h / stride);
    assert(anchors_at(det_w, det_h, stride) == cells * 2);
    assert(cells * 2 * 1 == 2 * cells) by (nonlinear_arith);
    assert(0 <= cells) by (nonlinear_arith)
        requires
            cells == (det_w / stride) * (det_h / stride),
            stride > 0,
    ;
    assert forall|i: int| 0 <= i < 9 implies (#[trigger] outputs[i]) is Some
        && outputs[i]->0.values is Some by {
        assert(scrfd_output_error(outputs, i, det_w, det_h) is None);
    }
}

/// What is found at one map: every anchor above the threshold, and nothing else.
proof fn map_faces_are_anchors(
    outputs: Seq<Option<ModelOutput>>,
    det_w: usize,
    det_h: usize,
    threshold: u32,
    decoding: Decoding,
    map: int,
)
    requires
        are_valid(outputs, det_w, det_h),
        0 <= map < 3,
    ensures
        ({
            let found = stride_faces(
                outputs,
                map,
                stride_of_map(map),
                det_w,
                det_h,
                threshold,
                decoding,
            );
            &&& forall|j: int|
                0 <= j < found.len() ==> exists|anchor: int|
                    #![trigger scores_above(outputs, map, anchor, threshold)]
                    scores_above(outputs, map, anchor, threshold) && #[trigger] found[j]
                        == face_at_anchor(outputs, map, anchor, det_w, decoding)
            &&& forall|anchor: int| #[trigger]
                scores_above(outputs, map, anchor, threshold) ==> found.contains(
                    face_at_anchor(outputs, map, anchor, det_w, decoding),
                )
            &&& found.len() > 1 ==> exists|a: int, b: int|
                a < b && #[trigger] scores_above(outputs, map, a, threshold)
                    && #[trigger] scores_above(outputs, map, b, threshold)
        }),
{
    let stride = stride_of_map(map);
    valid_outputs_fit(outputs, det_w, det_h, map, stride);
    valid_outputs_have_their_anchors(outputs, det_w, det_h, map);
    let scores = output_bits(outputs, map);
    let columns = det_w / stride;
    let lines = det_h / stride;
    let candidates = candidates_of(scores, scores.len(), threshold, columns, lines);
    let found = stride_faces(outputs, map, stride, det_w, det_h, threshold, decoding);
    assert(scores == outputs[map]->0.values->0@);
    assert(output_bits(outputs, map + 3) == outputs[map + 3]->0.values->0@);
    assert(output_bits(outputs, map + 6) == outputs[map + 6]->0.values->0@);
    assert(scores.len() <= usize::MAX) by {
        assert(outputs[map]->0.values->0.len() <= usize::MAX);
    }
    candidates_are_the_anchors_above(scores, scores.len(), threshold, columns, lines);
    assert(found.len() == candidates.len());
    assert forall|j: int| 0 <= j < found.len() implies scores_above(
        outputs,
        map,
        (#[trigger] candidates[j]).index as int,
        threshold,
    ) && found[j] == face_at_anchor(
        outputs,
        map,
        candidates[j].index as int,
        det_w,
        decoding,
    ) by {
        let candidate = candidates[j];
        let cell = candidate.index as int / 2;
        let x = candidate.cell_x as int;
        let y = candidate.cell_y as int;
        vstd::arithmetic::div_mod::lemma_fundamental_div_mod_converse(cell, columns as int, y, x);
        assert(found[j] == face_at(
            candidate,
            stride,
            output_bits(outputs, map + 3),
            output_bits(outputs, map + 6),
            decoding,
        ));
    }
    assert forall|j: int| 0 <= j < found.len() implies exists|anchor: int|
        #![trigger scores_above(outputs, map, anchor, threshold)]
        scores_above(outputs, map, anchor, threshold) && #[trigger] found[j] == face_at_anchor(
            outputs,
            map,
            anchor,
            det_w,
            decoding,
        ) by {
        assert(scores_above(outputs, map, candidates[j].index as int, threshold));
    }
    assert forall|anchor: int| #[trigger]
        scores_above(outputs, map, anchor, threshold) implies found.contains(
        face_at_anchor(outputs, map, anchor, det_w, decoding),
    ) by {
        assert(!at_most32(scores[anchor], threshold) && anchor / 2 < columns * lines);
        let j = choose|j: int| 0 <= j < candidates.len() && #[trigger] candidates[j].index == anchor;
        assert(found[j] == face_at_anchor(outputs, map, anchor, det_w, decoding));
    }
    if found.len() > 1 {
        let a = candidates[0].index as int;
        let b = candidates[1].index as int;
        assert(scores_above(outputs, map, a, threshold));
        assert(scores_above(outputs, map, b, threshold));
        assert(a < b);
    }
}

/// A face is among those that are kept, or one of them overlaps it by more than
/// four tenths and scores no less.
pub open spec fn is_answered(
    face: FaceView,
    faces: Seq<FaceView>,
    overlap: spec_fn([i32; 4], [i32; 4]) -> u32,
) -> bool {
    exists|i: int|
        0 <= i < faces.len() && ((#[trigger] faces[i]) == face || (less32(
            0x3ecc_cccd,
            overlap(faces[i].bbox, face.bbox),
        ) && !less32(faces[i].score, face.score)))
}

/// A face is what the detector says at an anchor that scores above the threshold.
pub open spec fn is_detected(
    face: FaceView,
    outputs: Seq<Option<ModelOutput>>,
    det_w: usize,
    threshold: u32,
    decoding: Decoding,
) -> bool {
    exists|map: int, anchor: int| #[trigger]
        scores_above(outputs, map, anchor, threshold) && face == face_at_anchor(
            outputs,
            map,
            anchor,
            det_w,
            decoding,
        )
}

/// The faces of the three maps: every anchor above the threshold, and nothing
/// else.
proof fn all_faces_are_anchors(
    outputs: Seq<Option<ModelOutput>>,
    det_w: usize,
    det_h: usize,
    threshold: u32,
    decoding: Decoding,
    all: Seq<FaceView>,
)
    requires
        are_valid(outputs, det_w, det_h),
        all == all_faces(outputs, det_w, det_h, threshold, decoding),
    ensures
        forall|map: int, anchor: int| #[trigger]
            scores_above(outputs, map, anchor, threshold) ==> all.contains(
                face_at_anchor(outputs, map, anchor, det_w, decoding),
            ),
        forall|k: int|
            0 <= k < all.len() ==> is_detected(
                #[trigger] all[k],
                outputs,
                det_w,
                threshold,
                decoding,
            ),
        forall|k: int| 0 <= k < all.len() ==> finite32((#[trigger] all[k]).score),
{
    let first = stride_faces(outputs, 0, 8, det_w, det_h, threshold, decoding);
    let second = stride_faces(outputs, 1, 16, det_w, det_h, threshold, decoding);
    let third = stride_faces(outputs, 2, 32, det_w, det_h, threshold, decoding);
    map_faces_are_anchors(outputs, det_w, det_h, threshold, decoding, 0);
    map_faces_are_anchors(outputs, det_w, det_h, threshold, decoding, 1);
    map_faces_are_anchors(outputs, det_w, det_h, threshold, decoding, 2);
    assert(all == first + second + third);
    assert forall|k: int| 0 <= k < all.len() implies is_detected(
        #[trigger] all[k],
        outputs,
        det_w,
        threshold,
        decoding,
    ) by {
        if k < first.len() {
            assert(all[k] == first[k]);
        } else if k < first.len() + second.len() {
            assert(all[k] == second[k - first.len()]);
        } else {
            assert(all[k] == third[k - first.len() - second.len()]);
        }
    }
    assert forall|map: int, anchor: int| #[trigger]
        scores_above(outputs, map, anchor, threshold) implies all.contains(
        face_at_anchor(outputs, map, anchor, det_w, decoding),
    ) by {
        let face = face_at_anchor(outputs, map, anchor, det_w, decoding);
        if map == 0 {
            let k = first.index_of(face);
            assert(all[k] == face);
        } else if map == 1 {
            let k = second.index_of(face);
            assert(all[first.len() + k] == face);
        } else {
            let k = third.index_of(face);
            assert(all[first.len() + second.len() + k] == face);
        }
    }
    assert forall|k: int| 0 <= k < all.len() implies finite32((#[trigger] all[k]).score) by {
        let (map, anchor) = choose|map: int, anchor: int| #[trigger]
            scores_above(outputs, map, anchor, threshold) && all[k] == face_at_anchor(
                outputs,
                map,
                anchor,
                det_w,
                decoding,
            );
        assert(is_detected(all[k], outputs, det_w, threshold, decoding));
        valid_outputs_have_their_anchors(outputs, det_w, det_h, map);
    }
}

/// The best of faces: each face is answered, only faces are among them, in the
/// order of their scores and apart, and no more than there were.
proof fn the_best_answer_for_all(
    faces: Seq<FaceView>,
    all: Seq<FaceView>,
    overlap: spec_fn([i32; 4], [i32; 4]) -> u32,
)
    requires
        are_best(faces, all, overlap),
        forall|i: int| 0 <= i < all.len() ==> finite32((#[trigger] all[i]).score),
    ensures
        faces.len() <= all.len(),
        forall|k: int| 0 <= k < all.len() ==> is_answered(#[trigger] all[k], faces, overlap),
        forall|i: int| 0 <= i < faces.len() ==> all.contains(#[trigger] faces[i]),
        forall|i: int, j: int|
            0 <= i < j < faces.len() ==> !less32(
                (#[trigger] faces[i]).score,
                (#[trigger] faces[j]).score,
            ) && !less32(0x3ecc_cccd, overlap(faces[i].bbox, faces[j].bbox)),
{
    let same = same_in(all, overlap);
    let scores = scores_of(all);
    let kept = choose|kept: Seq<usize>| #[trigger]
        keeps_best(scores, same, kept) && faces == kept.map_values(
            |index: usize| all[index as int],
        );
    let order = choose|order: Seq<usize>| #[trigger] is_kept_in(order, scores, same, kept);
    let before = |a: int, b: int| crate::detection::scored_before(scores, a, b);
    crate::detection::suppression_keeps_one_of_each(order, scores, same, kept);
    crate::detection::scores_are_ordered(scores);
    crate::order::orders_are_complete(order, scores.len(), before);
    crate::order::orders_are_bounded(order, scores.len(), before);
    kept_faces_are_in_order(order, scores, same, order.len());
    assert forall|i: int| 0 <= i < faces.len() implies all.contains(#[trigger] faces[i]) by {
        assert(kept[i] < scores.len());
        assert(faces[i] == all[kept[i] as int]);
    }
    assert forall|i: int, j: int| 0 <= i < j < faces.len() implies !less32(
        (#[trigger] faces[i]).score,
        (#[trigger] faces[j]).score,
    ) && !less32(0x3ecc_cccd, overlap(faces[i].bbox, faces[j].bbox)) by {
        assert(!same(kept[i], kept[j]));
        assert(crate::detection::scored_before(scores, kept[i] as int, kept[j] as int));
    }
    assert forall|k: int| 0 <= k < all.len() implies is_answered(
        #[trigger] all[k],
        faces,
        overlap,
    ) by {
        assert(order.contains(k as usize));
        let at = order.index_of(k as usize);
        assert(order[at] == k as usize);
        if kept.contains(order[at]) {
            let i = kept.index_of(order[at]);
            assert(faces[i] == all[k]);
        } else {
            let i = choose|i: int|
                0 <= i < kept.len() && same(#[trigger] kept[i], order[at])
                    && crate::detection::value_rank(scores[kept[i] as int])
                    >= crate::detection::value_rank(scores[order[at] as int]);
            assert(faces[i] == all[kept[i] as int]);
            assert(scores[k] == all[k].score);
        }
    }
}

/// Detection is complete and sound: whatever the detector says at any anchor of any
/// of the three maps with a score above the threshold is found, unless a face that
/// is found overlaps it by more than four tenths and scores no less; every face
/// that is found is what the detector says at such an anchor; faces come by their
/// score, and none overlaps a later one by more than four tenths.
pub proof fn detection_answers_every_anchor(
    outputs: Seq<Option<ModelOutput>>,
    det_w: usize,
    det_h: usize,
    threshold: u32,
    decoding: Decoding,
    faces: Seq<FaceView>,
)
    requires
        are_valid(outputs, det_w, det_h),
        are_best(
            faces,
            all_faces(outputs, det_w, det_h, threshold, decoding),
            decoding.overlap,
        ),
    ensures
        forall|map: int, anchor: int| #[trigger]
            scores_above(outputs, map, anchor, threshold) ==> is_answered(
                face_at_anchor(outputs, map, anchor, det_w, decoding),
                faces,
                decoding.overlap,
            ),
        forall|i: int|
            0 <= i < faces.len() ==> is_detected(
                #[trigger] faces[i],
                outputs,
                det_w,
                threshold,
                decoding,
            ),
        forall|i: int, j: int|
            0 <= i < j < faces.len() ==> !less32(
                (#[trigger] faces[i]).score,
                (#[trigger] faces[j]).score,
            ) && !less32(0x3ecc_cccd, (decoding.overlap)(faces[i].bbox, faces[j].bbox)),
{
    let all = all_faces(outputs, det_w, det_h, threshold, decoding);
    all_faces_are_anchors(outputs, det_w, det_h, threshold, decoding, all);
    the_best_answer_for_all(faces, all, decoding.overlap);
    assert forall|map: int, anchor: int| #[trigger]
        scores_above(outputs, map, anchor, threshold) implies is_answered(
        face_at_anchor(outputs, map, anchor, det_w, decoding),
        faces,
        decoding.overlap,
    ) by {
        let k = all.index_of(face_at_anchor(outputs, map, anchor, det_w, decoding));
        assert(is_answered(all[k], faces, decoding.overlap));
    }
    assert forall|i: int| 0 <= i < faces.len() implies is_detected(
        #[trigger] faces[i],
        outputs,
        det_w,
        threshold,
        decoding,
    ) by {
        let k = all.index_of(faces[i]);
        assert(all[k] == faces[i]);
    }
}

/// Where the detector scores above the threshold at a single anchor, of any map,
/// the face there is what is found.
pub proof fn a_single_score_is_a_single_face(
    outputs: Seq<Option<ModelOutput>>,
    det_w: usize,
    det_h: usize,
    threshold: u32,
    decoding: Decoding,
    faces: Seq<FaceView>,
    map: int,
    anchor: int,
)
    requires
        are_valid(outputs, det_w, det_h),
        are_best(
            faces,
            all_faces(outputs, det_w, det_h, threshold, decoding),
            decoding.overlap,
        ),
        forall|other: int, at: int| #[trigger]
            scores_above(outputs, other, at, threshold) <==> other == map && at == anchor,
    ensures
        faces == seq![face_at_anchor(outputs, map, anchor, det_w, decoding)],
{
    let all = all_faces(outputs, det_w, det_h, threshold, decoding);
    let face = face_at_anchor(outputs, map, anchor, det_w, decoding);
    let first = stride_faces(outputs, 0, 8, det_w, det_h, threshold, decoding);
    let second = stride_faces(outputs, 1, 16, det_w, det_h, threshold, decoding);
    let third = stride_faces(outputs, 2, 32, det_w, det_h, threshold, decoding);
    assert(scores_above(outputs, map, anchor, threshold));
    map_faces_are_anchors(outputs, det_w, det_h, threshold, decoding, 0);
    map_faces_are_anchors(outputs, det_w, det_h, threshold, decoding, 1);
    map_faces_are_anchors(outputs, det_w, det_h, threshold, decoding, 2);
    all_faces_are_anchors(outputs, det_w, det_h, threshold, decoding, all);
    the_best_answer_for_all(faces, all, decoding.overlap);
    detection_answers_every_anchor(outputs, det_w, det_h, threshold, decoding, faces);
    assert(map != 0 ==> first.len() == 0) by {
        if first.len() > 0 {
            assert(first[0] == first[0]);
        }
    }
    assert(map != 1 ==> second.len() == 0) by {
        if second.len() > 0 {
            assert(second[0] == second[0]);
        }
    }
    assert(map != 2 ==> third.len() == 0) by {
        if third.len() > 0 {
            assert(third[0] == third[0]);
        }
    }
    assert(all.len() <= 1);
    assert(is_answered(face, faces, decoding.overlap));
    assert(faces.len() == 1);
    assert(faces[0] == face);
    assert(faces =~= seq![face]);
}


/// An output has as many numbers as there are for two anchors in each cell of its
/// map, says so in its shape, and holds numbers only.
pub open spec fn holds_its_anchors(
    output: Option<ModelOutput>,
    index: int,
    det_w: usize,
    det_h: usize,
) -> bool {
    let stride = stride_of_map(index % 3);
    let numbers: int = if index < 3 {
        1
    } else if index < 6 {
        4
    } else {
        10
    };
    let anchors = 2 * ((det_w as int / stride as int) * (det_h as int / stride as int));
    &&& output is Some && output->0.values is Some
    &&& output->0.values->0@.len() == numbers * anchors
    &&& forall|i: int|
        0 <= i < output->0.values->0@.len() ==> finite32(#[trigger] output->0.values->0@[i])
    &&& output->0.shape@.len() == 2 || (output->0.shape@.len() == 3 && output->0.shape@[0] == 1)
    &&& output->0.shape@[output->0.shape@.len() - 2] == anchors
    &&& output->0.shape@.last() == numbers
}

/// Outputs are valid exactly where there are nine of them, the detector's input is a
/// multiple of the largest stride both ways, and each output holds its anchors: in
/// turn scores, boxes and landmarks, each for the three maps.
pub proof fn outputs_are_valid_where_they_fit(
    outputs: Seq<Option<ModelOutput>>,
    det_w: usize,
    det_h: usize,
)
    ensures
        are_valid(outputs, det_w, det_h) <==> {
            &&& outputs.len() == 9
            &&& 0 < det_w && det_w % 32 == 0
            &&& 0 < det_h && det_h % 32 == 0
            &&& forall|i: int|
                0 <= i < 9 ==> holds_its_anchors(#[trigger] outputs[i], i, det_w, det_h)
        },
{
    if outputs.len() == 9 {
        assert forall|i: int| 0 <= i < 9 implies (scrfd_output_error(outputs, i, det_w, det_h)
            is None <==> 0 < det_w && 0 < det_h && det_w % stride_of_map(i % 3) == 0 && det_h
            % stride_of_map(i % 3) == 0 && holds_its_anchors(
            #[trigger] outputs[i],
            i,
            det_w,
            det_h,
        )) by {
            output_fits_its_map(outputs, i, det_w, det_h);
        }
        if are_valid(outputs, det_w, det_h) {
            assert(scrfd_output_error(outputs, 2, det_w, det_h) is None);
            assert(stride_of_map(2int % 3) == 32);
            assert(outputs[2] == outputs[2]);
            assert forall|i: int| 0 <= i < 9 implies holds_its_anchors(
                #[trigger] outputs[i],
                i,
                det_w,
                det_h,
            ) by {
                assert(scrfd_output_error(outputs, i, det_w, det_h) is None);
            }
        } else if 0 < det_w && det_w % 32 == 0 && 0 < det_h && det_h % 32 == 0 {
            let i = choose|i: int|
                0 <= i < 9 && #[trigger] scrfd_output_error(outputs, i, det_w, det_h) is Some;
            assert(det_w % 8 == 0 && det_w % 16 == 0 && det_h % 8 == 0 && det_h % 16 == 0);
            assert(!holds_its_anchors(outputs[i], i, det_w, det_h));
        }
    }
}

proof fn output_fits_its_map(
    outputs: Seq<Option<ModelOutput>>,
    i: int,
    det_w: usize,
    det_h: usize,
)
    requires
        outputs.len() == 9,
        0 <= i < 9,
    ensures
        scrfd_output_error(outputs, i, det_w, det_h) is None <==> 0 < det_w && 0 < det_h && det_w
            % stride_of_map(i % 3) == 0 && det_h % stride_of_map(i % 3) == 0 && holds_its_anchors(
            outputs[i],
            i,
            det_w,
            det_h,
        ),
{
    let stride = stride_of_map(i % 3);
    let cells = (det_w / stride) * (det_h / stride);
    let anchors = anchors_at(det_w, det_h, stride);
    assert(0 <= cells) by (nonlinear_arith)
        requires
            cells == (det_w / stride) * (det_h / stride),
            stride > 0,
    ;
    assert(anchors == 2 * cells) by (nonlinear_arith)
        requires
            anchors == cells * 2,
    ;
    assert(anchors * 1 == 1 * anchors && anchors * 4 == 4 * anchors && anchors * 10 == 10
        * anchors) by (nonlinear_arith);
    if let Some(output) = outputs[i] {
        let shape = output.shape@;
        let width: usize = if i < 3 {
            1
        } else if i < 6 {
            4
        } else {
            10
        };
        if output.values is Some {
            assert(output.values->0.len() <= usize::MAX);
        }
        if anchors <= usize::MAX {
            let flat = seq![anchors as usize, width];
            let batched = seq![1usize, anchors as usize, width];
            if shape.len() == 2 && shape[0] == anchors && shape[1] == width {
                assert(shape =~= flat);
            }
            if shape.len() == 3 && shape[0] == 1 && shape[1] == anchors && shape[2] == width {
                assert(shape =~= batched);
            }
            assert(flat.len() == 2 && flat[0] == anchors && flat[1] == width);
            assert(batched.len() == 3 && batched[0] == 1 && batched[1] == anchors && batched[2]
                == width);
        }
    }
}

} // verus!
