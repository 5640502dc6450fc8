//! What workers of the precision experiment measured, when it is believed, and
//! what comparing two arms says.
use crate::float_bits::{
    all_finite, at_most32, finite32, finite64, is_at_most32, is_finite32, is_finite64, is_less64,
    less64, values_are_finite,
};
use crate::fp16_corpus::{verify_corpus_digest, FixtureClass, MAX_FACES_PER_FIXTURE};
use crate::fp16_environment::{Precision, WorkerPhase};
use crate::fp16_model::{decides, embedding_error, validate_normalized_embedding, ModelError};
use crate::fp16_placement::{PlacementError, PlacementFacts};
use crate::fp16_protocol::PROTOCOL_VERSION;
use crate::fp16_provenance::Provenance;
use crate::text::str_eq;
use crate::wiping::{
    wipe_corners, wipe_number, wipe_numbers, wipe_numbers_in_place, wipe_optional_answer,
    wipe_optional_number,
};
use vstd::prelude::*;
use vstd::string::*;
use vstd::utf8::*;

verus! {

/// A face as a worker measured it. Numbers with a fraction are kept by their
/// bits.
#[derive(Debug)]
pub struct FaceRecord {
    pub bbox: [i32; 4],
    pub landmarks: Vec<u32>,
    pub detector_score: u32,
    pub embedding: Vec<u32>,
    pub enrolled_score: Option<u32>,
    pub decision: Option<bool>,
}

/// A fixture as a worker measured it. Times are kept by their bits.
#[derive(Debug)]
pub struct ImageRecord {
    pub index: usize,
    pub class: FixtureClass,
    pub decode_ms: u64,
    pub detector_pipeline_ms: u64,
    pub recognizer_pipeline_ms: u64,
    pub enrolled_matching_ms: u64,
    pub complete_fixture_ms: u64,
    pub faces: Vec<FaceRecord>,
}

/// What a worker returns.
#[derive(Debug)]
pub struct WorkerOutput {
    pub protocol_version: u32,
    pub capability: Vec<u8>,
    pub phase: WorkerPhase,
    pub precision: Precision,
    pub registered_preference: String,
    pub corpus_digest: String,
    pub provenance: Provenance,
    pub detector_placement: PlacementFacts,
    pub recognizer_placement: PlacementFacts,
    pub records: Vec<ImageRecord>,
}

impl FaceRecord {
    /// Takes out of a face what tells whose it is.
    pub fn zeroize(&mut self)
        ensures
            final(self).bbox@ == seq![0i32, 0i32, 0i32, 0i32],
            final(self).landmarks@.len() == old(self).landmarks@.len(),
            forall|i: int|
                0 <= i < final(self).landmarks@.len() ==> #[trigger] final(self).landmarks@[i] == 0,
            final(self).detector_score == 0,
            final(self).embedding@.len() == 0,
            final(self).enrolled_score is None,
            final(self).decision is None,
        opens_invariants none
        no_unwind
    {
        wipe_corners(&mut self.bbox);
        wipe_numbers_in_place(&mut self.landmarks);
        wipe_number(&mut self.detector_score);
        wipe_numbers(&mut self.embedding);
        wipe_optional_number(&mut self.enrolled_score);
        wipe_optional_answer(&mut self.decision);
    }
}

impl Drop for FaceRecord {
    /// A face that goes out of use leaves nothing in memory, nor does a record
    /// with its faces.
    fn drop(&mut self)
        opens_invariants none
        no_unwind
    {
        self.zeroize();
    }
}

/// A record without its faces.
pub open spec fn without_faces(before: ImageRecord, after: ImageRecord) -> bool {
    &&& after.faces@.len() == 0
    &&& after == (ImageRecord { faces: after.faces, ..before })
}

impl ImageRecord {
    /// Takes the faces out of a record.
    pub fn zeroize(&mut self)
        ensures
            without_faces(*old(self), *final(self)),
    {
        while self.faces.len() > 0
            invariant
                *self == (ImageRecord { faces: self.faces, ..*old(self) }),
            decreases self.faces@.len(),
        {
            match self.faces.pop() {
                Some(mut face) => {
                    face.zeroize();
                },
                None => {},
            }
        }
    }
}

/// Takes the faces out of what a worker returned.
pub fn scrub_worker_output(output: &mut WorkerOutput)
    ensures
        *final(output) == (WorkerOutput { records: final(output).records, ..*old(output) }),
        final(output).records@.len() == old(output).records@.len(),
        forall|i: int|
            0 <= i < final(output).records@.len() ==> without_faces(
                old(output).records@[i],
                #[trigger] final(output).records@[i],
            ),
{
    let mut index: usize = 0;
    while index < output.records.len()
        invariant
            index <= output.records@.len(),
            *output == (WorkerOutput { records: output.records, ..*old(output) }),
            output.records@.len() == old(output).records@.len(),
            forall|i: int|
                0 <= i < index ==> without_faces(
                    old(output).records@[i],
                    #[trigger] output.records@[i],
                ),
            forall|i: int|
                index <= i < output.records@.len() ==> #[trigger] output.records@[i] == old(
                    output,
                ).records@[i],
        decreases output.records@.len() - index,
    {
        output.records[index].zeroize();
        index = index + 1;
    }
}

#[derive(Clone, Copy, Debug, PartialEq, Eq, Structural)]
pub enum RecordError {
    OutputContractMismatch,
    RecordOrderMismatch,
    RecordNumericInvalid,
    FaceNumericInvalid,
    Embedding(ModelError),
    DecisionInvalid,
    ArmMissing,
    Placement(PlacementError),
    RecordPairingMismatch,
    DecisionEvaluationMismatch,
    SimilarityUnavailable,
}

/// A face that was detected, encoded and, where there are enrolled models,
/// matched: whether one of them matched, and the best score. Its embedding must
/// be one.
pub fn face_record<F: Fn(&[u32]) -> bool>(
    bbox: [i32; 4],
    landmarks: Vec<u32>,
    detector_score: u32,
    embedding: Vec<u32>,
    best_match: Option<(bool, u32)>,
    unit: &F,
) -> (record: Result<FaceRecord, RecordError>)
    requires
        forall|values: &[u32]| #[trigger] call_requires(*unit, (values,)),
    ensures
        forall|decision: spec_fn(Seq<u32>) -> bool| #[trigger]
            decides(*unit, decision) ==> match embedding_error(embedding@, decision) {
                Some(error) => record == Err::<FaceRecord, RecordError>(
                    RecordError::Embedding(error),
                ),
                None => record is Ok,
            },
        record matches Ok(face) ==> face == (FaceRecord {
            bbox,
            landmarks,
            detector_score,
            embedding,
            enrolled_score: match best_match {
                Some((_, score)) => Some(score),
                None => None,
            },
            decision: match best_match {
                Some((matched, _)) => Some(matched),
                None => None,
            },
        }),
{
    let (enrolled_score, decision) = match best_match {
        Some((matched, score)) => (Some(score), Some(matched)),
        None => (None, None),
    };
    let record = FaceRecord {
        bbox,
        landmarks,
        detector_score,
        embedding,
        enrolled_score,
        decision,
    };
    match validate_normalized_embedding(record.embedding.as_slice(), unit) {
        Ok(()) => Ok(record),
        Err(error) => Err(RecordError::Embedding(error)),
    }
}

/// Records are numbered in order.
pub open spec fn indices_are_in_order(records: Seq<ImageRecord>) -> bool {
    forall|i: int| 0 <= i < records.len() ==> (#[trigger] records[i]).index == i
}

pub fn validate_record_indices(records: &Vec<ImageRecord>) -> (result: Result<(), RecordError>)
    ensures
        result == (if indices_are_in_order(records@) {
            Ok(())
        } else {
            Err(RecordError::RecordOrderMismatch)
        }),
{
    let mut index: usize = 0;
    while index < records.len()
        invariant
            index <= records@.len(),
            forall|i: int| 0 <= i < index ==> (#[trigger] records@[i]).index == i,
        decreases records.len() - index,
    {
        if records[index].index != index {
            assert(records@[index as int].index != index);
            return Err(RecordError::RecordOrderMismatch);
        }
        index = index + 1;
    }
    Ok(())
}

/// A time that can have passed: finite and not negative.
pub open spec fn is_duration(bits: u64) -> bool {
    finite64(bits) && !less64(bits, 0)
}

fn check_duration(bits: u64) -> (valid: bool)
    ensures
        valid == is_duration(bits),
{
    is_finite64(bits) && !is_less64(bits, 0)
}

/// Whether the times of a record can have passed and it has no more faces than
/// there may be.
pub open spec fn record_numbers_are_valid(record: ImageRecord) -> bool {
    is_duration(record.decode_ms) && is_duration(record.detector_pipeline_ms) && is_duration(
        record.recognizer_pipeline_ms,
    ) && is_duration(record.enrolled_matching_ms) && is_duration(record.complete_fixture_ms)
        && record.faces@.len() <= MAX_FACES_PER_FIXTURE
}

/// Whether a score and a decision fit each other: neither is there, or the
/// decision is whether the score reaches the threshold.
pub open spec fn decision_fits(face: FaceRecord, threshold: u32) -> bool {
    match (face.enrolled_score, face.decision) {
        (Some(score), Some(decision)) => finite32(score) && decision == at_most32(threshold, score),
        (None, None) => true,
        _ => false,
    }
}

/// Why a face is not believed. `unit` tells whether the values of an embedding
/// have the length of one.
pub open spec fn face_error(
    face: FaceRecord,
    threshold: u32,
    unit: spec_fn(Seq<u32>) -> bool,
) -> Option<RecordError> {
    if !finite32(face.detector_score) || !all_finite(face.landmarks@) {
        Some(RecordError::FaceNumericInvalid)
    } else {
        match embedding_error(face.embedding@, unit) {
            Some(error) => Some(RecordError::Embedding(error)),
            None => if !decision_fits(face, threshold) {
                Some(RecordError::DecisionInvalid)
            } else {
                None
            },
        }
    }
}

/// Why the faces from `at` on are not believed.
pub open spec fn faces_error(
    faces: Seq<FaceRecord>,
    threshold: u32,
    unit: spec_fn(Seq<u32>) -> bool,
    at: int,
) -> Option<RecordError>
    decreases faces.len() - at,
{
    if at < 0 || at >= faces.len() {
        None
    } else {
        match face_error(faces[at], threshold, unit) {
            Some(error) => Some(error),
            None => faces_error(faces, threshold, unit, at + 1),
        }
    }
}

/// Why the records from `at` on are not believed.
pub open spec fn records_error(
    records: Seq<ImageRecord>,
    threshold: u32,
    unit: spec_fn(Seq<u32>) -> bool,
    at: int,
) -> Option<RecordError>
    decreases records.len() - at,
{
    if at < 0 || at >= records.len() {
        None
    } else if !record_numbers_are_valid(records[at]) {
        Some(RecordError::RecordNumericInvalid)
    } else {
        match faces_error(records[at].faces@, threshold, unit, 0) {
            Some(error) => Some(error),
            None => records_error(records, threshold, unit, at + 1),
        }
    }
}

/// Why a worker's output is not believed: it must answer what was asked, list
/// its records in order, and hold only numbers and decisions that can be.
pub open spec fn output_error(
    output: WorkerOutput,
    precision: Precision,
    phase: WorkerPhase,
    count: usize,
    threshold: u32,
    corpus_digest: Seq<char>,
    unit: spec_fn(Seq<u32>) -> bool,
) -> Option<RecordError> {
    if output.protocol_version != PROTOCOL_VERSION || output.precision != precision || output.phase
        != phase || output.records@.len() != count || output.registered_preference@ != "migraphx"@
        || encode_utf8(corpus_digest).len() != 64 || output.corpus_digest@ != corpus_digest {
        Some(RecordError::OutputContractMismatch)
    } else if !indices_are_in_order(output.records@) {
        Some(RecordError::RecordOrderMismatch)
    } else {
        records_error(output.records@, threshold, unit, 0)
    }
}

fn check_face<F: Fn(&[u32]) -> bool>(face: &FaceRecord, threshold: u32, unit: &F) -> (result: Result<
    (),
    RecordError,
>)
    requires
        forall|values: &[u32]| #[trigger] call_requires(*unit, (values,)),
    ensures
        forall|decision: spec_fn(Seq<u32>) -> bool| #[trigger]
            decides(*unit, decision) ==> result == (match face_error(*face, threshold, decision) {
                Some(error) => Err(error),
                None => Ok(()),
            }),
        result is Ok ==> decision_fits(*face, threshold),
{
    if !is_finite32(face.detector_score) || !values_are_finite(face.landmarks.as_slice()) {
        return Err(RecordError::FaceNumericInvalid);
    }
    let checked = validate_normalized_embedding(face.embedding.as_slice(), unit);
    proof {
        assert forall|decision: spec_fn(Seq<u32>) -> bool| #[trigger]
            decides(*unit, decision) implies checked == (match embedding_error(
            face.embedding@,
            decision,
        ) {
            Some(error) => Err(error),
            None => Ok(()),
        }) by {}
    }
    match checked {
        Ok(()) => {},
        Err(error) => {
            return Err(RecordError::Embedding(error));
        },
    }
    let fits = match (face.enrolled_score, face.decision) {
        (Some(score), Some(decision)) => is_finite32(score) && decision == is_at_most32(
            threshold,
            score,
        ),
        (None, None) => true,
        _ => false,
    };
    if !fits {
        return Err(RecordError::DecisionInvalid);
    }
    Ok(())
}

fn check_faces<F: Fn(&[u32]) -> bool>(faces: &Vec<FaceRecord>, threshold: u32, unit: &F) -> (result:
    Result<(), RecordError>)
    requires
        forall|values: &[u32]| #[trigger] call_requires(*unit, (values,)),
    ensures
        forall|decision: spec_fn(Seq<u32>) -> bool| #[trigger]
            decides(*unit, decision) ==> result == (match faces_error(
                faces@,
                threshold,
                decision,
                0,
            ) {
                Some(error) => Err(error),
                None => Ok(()),
            }),
        result is Ok ==> forall|i: int|
            0 <= i < faces@.len() ==> decision_fits(#[trigger] faces@[i], threshold),
{
    let mut index: usize = 0;
    while index < faces.len()
        invariant
            index <= faces@.len(),
            forall|values: &[u32]| #[trigger] call_requires(*unit, (values,)),
            forall|decision: spec_fn(Seq<u32>) -> bool| #[trigger]
                decides(*unit, decision) ==> faces_error(faces@, threshold, decision, 0)
                    == faces_error(faces@, threshold, decision, index as int),
            forall|i: int| 0 <= i < index ==> decision_fits(#[trigger] faces@[i], threshold),
        decreases faces.len() - index,
    {
        match check_face(&faces[index], threshold, unit) {
            Ok(()) => {},
            Err(error) => {
                return Err(error);
            },
        }
        index = index + 1;
    }
    Ok(())
}

/// Whether a worker's output answers what was asked and holds only what can be.
/// `unit` tells whether the values of an embedding have the length of one.
pub fn validate_worker_output<F: Fn(&[u32]) -> bool>(
    output: &WorkerOutput,
    precision: Precision,
    phase: WorkerPhase,
    count: usize,
    threshold: u32,
    corpus_digest: &str,
    unit: &F,
) -> (result: Result<(), RecordError>)
    requires
        forall|values: &[u32]| #[trigger] call_requires(*unit, (values,)),
    ensures
        forall|decision: spec_fn(Seq<u32>) -> bool| #[trigger]
            decides(*unit, decision) ==> result == (match output_error(
                *output,
                precision,
                phase,
                count,
                threshold,
                corpus_digest@,
                decision,
            ) {
                Some(error) => Err(error),
                None => Ok(()),
            }),
        result is Ok ==> is_believed(*output, threshold) && output.records@.len() == count,
{
    if output.protocol_version != PROTOCOL_VERSION || output.precision != precision || output.phase
        != phase || output.records.len() != count || !str_eq(
        output.registered_preference.as_str(),
        "migraphx",
    ) || !verify_corpus_digest(corpus_digest, output.corpus_digest.as_str()) {
        return Err(RecordError::OutputContractMismatch);
    }
    match validate_record_indices(&output.records) {
        Ok(()) => {},
        Err(error) => {
            return Err(error);
        },
    }
    let mut index: usize = 0;
    while index < output.records.len()
        invariant
            index <= output.records@.len(),
            forall|values: &[u32]| #[trigger] call_requires(*unit, (values,)),
            forall|decision: spec_fn(Seq<u32>) -> bool| #[trigger]
                decides(*unit, decision) ==> output_error(
                    *output,
                    precision,
                    phase,
                    count,
                    threshold,
                    corpus_digest@,
                    decision,
                ) == records_error(output.records@, threshold, decision, index as int),
            forall|i: int|
                0 <= i < index ==> record_is_believed(#[trigger] output.records@[i], threshold),
        decreases output.records.len() - index,
    {
        let record = &output.records[index];
        if !check_duration(record.decode_ms) || !check_duration(record.detector_pipeline_ms)
            || !check_duration(record.recognizer_pipeline_ms) || !check_duration(
            record.enrolled_matching_ms,
        ) || !check_duration(record.complete_fixture_ms) || record.faces.len()
            > MAX_FACES_PER_FIXTURE {
            return Err(RecordError::RecordNumericInvalid);
        }
        match check_faces(&record.faces, threshold, unit) {
            Ok(()) => {},
            Err(error) => {
                return Err(error);
            },
        }
        index = index + 1;
    }
    Ok(())
}

/// A record that has been believed: few enough faces, and decisions that fit
/// their scores.
pub open spec fn record_is_believed(record: ImageRecord, threshold: u32) -> bool {
    record_numbers_are_valid(record) && forall|i: int|
        0 <= i < record.faces@.len() ==> decision_fits(#[trigger] record.faces@[i], threshold)
}

/// An output that has been believed: its records are in order and each of them
/// is believed.
pub open spec fn is_believed(output: WorkerOutput, threshold: u32) -> bool {
    &&& indices_are_in_order(output.records@)
    &&& forall|i: int|
        0 <= i < output.records@.len() ==> record_is_believed(
            #[trigger] output.records@[i],
            threshold,
        )
}


/// A face is believed: its numbers are numbers, its embedding is one, and its decision
/// is that its score reaches the threshold, where it has either.
pub open spec fn face_is_sound(
    face: FaceRecord,
    threshold: u32,
    unit: spec_fn(Seq<u32>) -> bool,
) -> bool {
    &&& finite32(face.detector_score)
    &&& forall|i: int| 0 <= i < face.landmarks@.len() ==> finite32(#[trigger] face.landmarks@[i])
    &&& face.embedding@.len() == 512
    &&& forall|i: int| 0 <= i < face.embedding@.len() ==> finite32(#[trigger] face.embedding@[i])
    &&& unit(face.embedding@)
    &&& face.enrolled_score is Some <==> face.decision is Some
    &&& face.enrolled_score matches Some(score) ==> finite32(score) && (face.decision == Some(true)
        <==> at_most32(threshold, score))
}

/// A time is neither negative nor without end. A zero may have a sign.
pub open spec fn time_is_sound(bits: u64) -> bool {
    bits < 0x7ff0_0000_0000_0000 || bits == 0x8000_0000_0000_0000
}

proof fn sound_times_are_durations(bits: u64)
    ensures
        is_duration(bits) <==> time_is_sound(bits),
{
    assert(bits < 0x8000_0000_0000_0000 ==> ((bits / 0x10_0000_0000_0000) % 2048 != 2047 <==> bits
        < 0x7ff0_0000_0000_0000)) by (bit_vector);
    assert((0x8000_0000_0000_0000u64 / 0x10_0000_0000_0000) % 2048 != 2047) by (bit_vector);
    assert((0u64 / 0x10_0000_0000_0000) % 2048 != 2047) by (bit_vector);
}

proof fn sound_faces_have_no_error(
    face: FaceRecord,
    threshold: u32,
    unit: spec_fn(Seq<u32>) -> bool,
)
    ensures
        face_error(face, threshold, unit) is None <==> face_is_sound(face, threshold, unit),
{
    match (face.enrolled_score, face.decision) {
        (Some(score), Some(decision)) => {
            assert(decision == (face.decision == Some(true)));
        },
        _ => {},
    }
}

proof fn all_faces_are_checked(
    faces: Seq<FaceRecord>,
    threshold: u32,
    unit: spec_fn(Seq<u32>) -> bool,
    at: int,
)
    requires
        0 <= at <= faces.len(),
    ensures
        faces_error(faces, threshold, unit, at) is None <==> forall|i: int|
            at <= i < faces.len() ==> face_is_sound(#[trigger] faces[i], threshold, unit),
    decreases faces.len() - at,
{
    if at < faces.len() {
        sound_faces_have_no_error(faces[at], threshold, unit);
        all_faces_are_checked(faces, threshold, unit, at + 1);
    }
}

/// A record is believed: its times are times, and it has at most sixteen faces, all of
/// them sound.
pub open spec fn record_is_sound(
    record: ImageRecord,
    threshold: u32,
    unit: spec_fn(Seq<u32>) -> bool,
) -> bool {
    &&& time_is_sound(record.decode_ms) && time_is_sound(record.detector_pipeline_ms)
    &&& time_is_sound(record.recognizer_pipeline_ms) && time_is_sound(record.enrolled_matching_ms)
    &&& time_is_sound(record.complete_fixture_ms)
    &&& record.faces@.len() <= 16
    &&& forall|i: int|
        0 <= i < record.faces@.len() ==> face_is_sound(#[trigger] record.faces@[i], threshold, unit)
}

proof fn all_records_are_checked(
    records: Seq<ImageRecord>,
    threshold: u32,
    unit: spec_fn(Seq<u32>) -> bool,
    at: int,
)
    requires
        0 <= at <= records.len(),
    ensures
        records_error(records, threshold, unit, at) is None <==> forall|i: int|
            at <= i < records.len() ==> record_is_sound(#[trigger] records[i], threshold, unit),
    decreases records.len() - at,
{
    if at < records.len() {
        let record = records[at];
        sound_times_are_durations(record.decode_ms);
        sound_times_are_durations(record.detector_pipeline_ms);
        sound_times_are_durations(record.recognizer_pipeline_ms);
        sound_times_are_durations(record.enrolled_matching_ms);
        sound_times_are_durations(record.complete_fixture_ms);
        all_faces_are_checked(record.faces@, threshold, unit, 0);
        all_records_are_checked(records, threshold, unit, at + 1);
        assert(record_numbers_are_valid(record) && faces_error(
            record.faces@,
            threshold,
            unit,
            0,
        ) is None <==> record_is_sound(record, threshold, unit));
    }
}

/// A worker's output is accepted exactly where it is of this version, arm, phase and
/// corpus, on the one provider, with one record for every picture, in order, and every
/// record is sound.
pub proof fn accepted_outputs_are_sound(
    output: WorkerOutput,
    precision: Precision,
    phase: WorkerPhase,
    count: usize,
    threshold: u32,
    corpus_digest: Seq<char>,
    unit: spec_fn(Seq<u32>) -> bool,
)
    ensures
        output_error(output, precision, phase, count, threshold, corpus_digest, unit) is None <==> {
            &&& output.protocol_version == 2
            &&& output.precision == precision && output.phase == phase
            &&& output.registered_preference@ == "migraphx"@
            &&& encode_utf8(corpus_digest).len() == 64 && output.corpus_digest@ == corpus_digest
            &&& output.records@.len() == count
            &&& forall|i: int|
                0 <= i < count ==> (#[trigger] output.records@[i]).index == i && record_is_sound(
                    output.records@[i],
                    threshold,
                    unit,
                )
        },
{
    all_records_are_checked(output.records@, threshold, unit, 0);
}


/// A record that was cleared has no faces left, and keeps everything else.
pub proof fn cleared_records_keep_all_but_faces(before: ImageRecord, after: ImageRecord)
    requires
        without_faces(before, after),
    ensures
        after.faces@.len() == 0,
        after.index == before.index && after.class == before.class,
        after.decode_ms == before.decode_ms,
        after.detector_pipeline_ms == before.detector_pipeline_ms,
        after.recognizer_pipeline_ms == before.recognizer_pipeline_ms,
        after.enrolled_matching_ms == before.enrolled_matching_ms,
        after.complete_fixture_ms == before.complete_fixture_ms,
{
}

} // verus!
