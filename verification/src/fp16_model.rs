//! The file format of enrolled face models.
//!
//! A file holds a user name, a count, and that many models; a model is a label,
//! a time and an embedding. Texts and embeddings stand behind their length.
use crate::float_bits::{all_finite, values_are_finite};
use crate::inference::FACE_EMBEDDING_DIM;
use crate::text::utf8_text;
use crate::wire::{
    byte_ranges, le_bytes, le_value, numbers_round_trip, read_le, values_are_in_range,
};
use crate::wiping::{wipe_numbers, wipe_text, wipe_texts};
use vstd::prelude::*;
use vstd::utf8::*;

verus! {

pub const MAX_ENROLLED_MODEL_BYTES: usize = 8388608;

pub const MAX_ENROLLED_MODELS: usize = 256;

pub const MAX_LABEL_BYTES: usize = 128;

pub const MAX_USERNAME_BYTES: usize = 128;

/// Why bytes are not a file of enrolled models.
#[derive(Clone, Copy, Debug, PartialEq, Eq, Structural)]
pub enum ModelError {
    Truncated,
    CollectionLimit,
    NonUtf8,
    Empty,
    EmbeddingLength,
    /// The embedding has the wrong length or a value that is not finite.
    InvalidEmbedding,
    NotNormalized,
    TrailingData,
}

/// What a reading found, and where it ended.
pub type Found<T> = Result<(T, int), ModelError>;

/// Eight bytes at `at` as a number.
pub open spec fn number_at(bytes: Seq<u8>, at: int) -> Found<nat> {
    if at + 8 <= bytes.len() {
        Ok((le_value(bytes.subrange(at, at + 8)), at + 8))
    } else {
        Err(ModelError::Truncated)
    }
}

/// A length that may be at most `maximum`.
pub open spec fn length_at(bytes: Seq<u8>, at: int, maximum: usize) -> Found<nat> {
    match number_at(bytes, at) {
        Err(error) => Err(error),
        Ok((length, end)) => if length > maximum {
            Err(ModelError::CollectionLimit)
        } else {
            Ok((length, end))
        },
    }
}

/// A text behind its length.
pub open spec fn text_at(bytes: Seq<u8>, at: int, maximum: usize) -> Found<Seq<char>> {
    match length_at(bytes, at, maximum) {
        Err(error) => Err(error),
        Ok((length, start)) => if start + length > bytes.len() {
            Err(ModelError::Truncated)
        } else if !valid_utf8(bytes.subrange(start, start + length)) {
            Err(ModelError::NonUtf8)
        } else {
            Ok((decode_utf8(bytes.subrange(start, start + length)), start + length))
        },
    }
}

/// The bits of `count` values of four bytes each.
pub open spec fn values_at(bytes: Seq<u8>, at: int, count: nat) -> Seq<u32> {
    Seq::new(
        count,
        |i: int| le_value(bytes.subrange(at + 4 * i, at + 4 * i + 4)) as u32,
    )
}

/// Why values are not an embedding. `unit` tells whether values have the length
/// of one.
pub open spec fn embedding_error(values: Seq<u32>, unit: spec_fn(Seq<u32>) -> bool) -> Option<
    ModelError,
> {
    if values.len() != FACE_EMBEDDING_DIM || !all_finite(values) {
        Some(ModelError::InvalidEmbedding)
    } else if !unit(values) {
        Some(ModelError::NotNormalized)
    } else {
        None
    }
}

/// A model of a file.
pub struct Enrolled {
    pub label: Seq<char>,
    pub values: Seq<u32>,
}

/// One model: a label, eight bytes of time, and an embedding behind its length.
pub open spec fn model_at(bytes: Seq<u8>, at: int, unit: spec_fn(Seq<u32>) -> bool) -> Found<
    Enrolled,
> {
    match text_at(bytes, at, MAX_LABEL_BYTES) {
        Err(error) => Err(error),
        Ok((label, created)) => match number_at(bytes, created) {
            Err(error) => Err(error),
            Ok((_, counted)) => match length_at(bytes, counted, FACE_EMBEDDING_DIM) {
                Err(error) => Err(error),
                Ok((count, start)) => if count != FACE_EMBEDDING_DIM {
                    Err(ModelError::EmbeddingLength)
                } else if start + 4 * FACE_EMBEDDING_DIM > bytes.len() {
                    Err(ModelError::Truncated)
                } else {
                    let values = values_at(bytes, start, FACE_EMBEDDING_DIM as nat);
                    match embedding_error(values, unit) {
                        Some(error) => Err(error),
                        None => Ok((Enrolled { label, values }, start + 4 * FACE_EMBEDDING_DIM)),
                    }
                },
            },
        },
    }
}

/// `count` models one behind the other, behind those in `so_far`.
pub open spec fn models_at(
    bytes: Seq<u8>,
    at: int,
    count: nat,
    unit: spec_fn(Seq<u32>) -> bool,
    so_far: Seq<Enrolled>,
) -> Found<Seq<Enrolled>>
    decreases count,
{
    if count == 0 {
        Ok((so_far, at))
    } else {
        match model_at(bytes, at, unit) {
            Err(error) => Err(error),
            Ok((model, next)) => models_at(
                bytes,
                next,
                (count - 1) as nat,
                unit,
                so_far.push(model),
            ),
        }
    }
}

/// A whole file: at least one model, and nothing behind the last.
pub open spec fn file_of(bytes: Seq<u8>, unit: spec_fn(Seq<u32>) -> bool) -> Result<
    (Seq<char>, Seq<Enrolled>),
    ModelError,
> {
    match text_at(bytes, 0, MAX_USERNAME_BYTES) {
        Err(error) => Err(error),
        Ok((username, counted)) => match length_at(bytes, counted, MAX_ENROLLED_MODELS) {
            Err(error) => Err(error),
            Ok((count, start)) => if count == 0 {
                Err(ModelError::Empty)
            } else {
                match models_at(bytes, start, count, unit, Seq::empty()) {
                    Err(error) => Err(error),
                    Ok((models, end)) => if end != bytes.len() {
                        Err(ModelError::TrailingData)
                    } else {
                        Ok((username, models))
                    },
                }
            },
        },
    }
}

/// `unit` is a function that decides what `decision` says.
pub open spec fn decides<F: Fn(&[u32]) -> bool>(
    unit: F,
    decision: spec_fn(Seq<u32>) -> bool,
) -> bool {
    forall|values: &[u32], answer: bool| #[trigger]
        call_ensures(unit, (values,), answer) ==> answer == decision(values@)
}

/// A reader of a byte string.
pub struct ModelReader<'a> {
    bytes: &'a [u8],
    offset: usize,
}

impl<'a> ModelReader<'a> {
    pub closed spec fn content(&self) -> Seq<u8> {
        self.bytes@
    }

    pub closed spec fn position(&self) -> int {
        self.offset as int
    }

    pub open spec fn wf(&self) -> bool {
        0 <= self.position() <= self.content().len()
    }

    pub fn new(bytes: &'a [u8]) -> (reader: Self)
        ensures
            reader.wf(),
            reader.content() == bytes@,
            reader.position() == 0,
    {
        ModelReader { bytes, offset: 0 }
    }

    /// The next `count` bytes.
    pub fn take(&mut self, count: usize) -> (value: Result<&'a [u8], ModelError>)
        requires
            old(self).wf(),
        ensures
            final(self).wf(),
            final(self).content() == old(self).content(),
            match value {
                Ok(bytes) => old(self).position() + count <= old(self).content().len()
                    && final(self).position() == old(self).position() + count && bytes@
                    == old(self).content().subrange(
                    old(self).position(),
                    old(self).position() + count,
                ),
                Err(error) => old(self).position() + count > old(self).content().len() && error
                    == ModelError::Truncated && final(self).position() == old(self).position(),
            },
    {
        if count > self.bytes.len() - self.offset {
            return Err(ModelError::Truncated);
        }
        let end: usize = self.offset + count;
        let value = vstd::slice::slice_subrange(self.bytes, self.offset, end);
        self.offset = end;
        Ok(value)
    }

    /// The next number of eight bytes.
    pub fn u64(&mut self) -> (value: Result<u64, ModelError>)
        requires
            old(self).wf(),
        ensures
            final(self).wf(),
            final(self).content() == old(self).content(),
            match value {
                Ok(number) => number_at(old(self).content(), old(self).position()) == Ok::<
                    (nat, int),
                    ModelError,
                >((number as nat, final(self).position())),
                Err(error) => number_at(old(self).content(), old(self).position()) == Err::<
                    (nat, int),
                    ModelError,
                >(error),
            },
    {
        let bytes = self.take(8)?;
        Ok(read_le(bytes))
    }

    /// The next number, which may be at most `maximum`.
    pub fn bounded_len(&mut self, maximum: usize) -> (value: Result<usize, ModelError>)
        requires
            old(self).wf(),
        ensures
            final(self).wf(),
            final(self).content() == old(self).content(),
            match value {
                Ok(length) => length_at(old(self).content(), old(self).position(), maximum) == Ok::<
                    (nat, int),
                    ModelError,
                >((length as nat, final(self).position())),
                Err(error) => length_at(old(self).content(), old(self).position(), maximum)
                    == Err::<(nat, int), ModelError>(error),
            },
    {
        let value: u64 = self.u64()?;
        if value > maximum as u64 {
            return Err(ModelError::CollectionLimit);
        }
        Ok(value as usize)
    }

    /// The next text, of at most `maximum` bytes.
    pub fn string(&mut self, maximum: usize) -> (value: Result<String, ModelError>)
        requires
            old(self).wf(),
        ensures
            final(self).wf(),
            final(self).content() == old(self).content(),
            match value {
                Ok(text) => text_at(old(self).content(), old(self).position(), maximum) == Ok::<
                    (Seq<char>, int),
                    ModelError,
                >((text@, final(self).position())),
                Err(error) => text_at(old(self).content(), old(self).position(), maximum) == Err::<
                    (Seq<char>, int),
                    ModelError,
                >(error),
            },
    {
        let length: usize = self.bounded_len(maximum)?;
        let bytes = self.take(length)?;
        match utf8_text(bytes) {
            Some(text) => Ok(text),
            None => Err(ModelError::NonUtf8),
        }
    }

    /// The next `count` values of four bytes.
    fn values(&mut self, count: usize) -> (values: Result<Vec<u32>, ModelError>)
        requires
            old(self).wf(),
            count <= FACE_EMBEDDING_DIM,
        ensures
            final(self).wf(),
            final(self).content() == old(self).content(),
            match values {
                Ok(bits) => old(self).position() + 4 * count <= old(self).content().len()
                    && final(self).position() == old(self).position() + 4 * count && bits@
                    == values_at(old(self).content(), old(self).position(), count as nat),
                Err(error) => old(self).position() + 4 * count > old(self).content().len() && error
                    == ModelError::Truncated,
            },
    {
        let ghost content = self.content();
        let ghost start = self.position();
        let mut values: Vec<u32> = Vec::new();
        let mut index: usize = 0;
        while index < count
            invariant
                index <= count,
                self.wf(),
                self.content() == content,
                content == old(self).content(),
                start == old(self).position(),
                start >= 0,
                self.position() == start + 4 * index,
                start + 4 * index <= content.len(),
                values@ == values_at(content, start, index as nat),
            decreases count - index,
        {
            let bytes = match self.take(4) {
                Ok(bytes) => bytes,
                Err(error) => {
                    return Err(error);
                },
            };
            proof {
                byte_ranges();
                values_are_in_range(bytes@);
            }
            let value: u64 = read_le(bytes);
            values.push(value as u32);
            index = index + 1;
            assert(values@ =~= values_at(content, start, index as nat));
        }
        Ok(values)
    }
}

/// The models of one user. The embeddings lie one behind the other, by the bits
/// of their values.
#[derive(Debug)]
pub struct EnrolledModels {
    pub username: String,
    pub labels: Vec<String>,
    pub flat_embeddings: Vec<u32>,
    pub count: usize,
}

impl EnrolledModels {
    /// Takes the content out of models that are no longer needed.
    pub fn zeroize(&mut self)
        ensures
            final(self).username@.len() == 0,
            final(self).labels@.len() == 0,
            final(self).flat_embeddings@.len() == 0,
            final(self).count == old(self).count,
        opens_invariants none
        no_unwind
    {
        wipe_text(&mut self.username);
        wipe_texts(&mut self.labels);
        wipe_numbers(&mut self.flat_embeddings);
    }
}

impl Drop for EnrolledModels {
    /// Models that go out of use leave nothing in memory.
    fn drop(&mut self)
        opens_invariants none
        no_unwind
    {
        self.zeroize();
    }
}

/// The values of models, one model behind the other.
pub open spec fn flattened(models: Seq<Enrolled>) -> Seq<u32>
    decreases models.len(),
{
    if models.len() == 0 {
        Seq::empty()
    } else {
        flattened(models.drop_last()) + models.last().values
    }
}

/// `parsed` holds what a file holds.
pub open spec fn holds(parsed: EnrolledModels, username: Seq<char>, models: Seq<Enrolled>) -> bool {
    &&& parsed.username@ == username
    &&& parsed.count == models.len()
    &&& parsed.labels@.len() == models.len()
    &&& forall|i: int|
        0 <= i < models.len() ==> (#[trigger] parsed.labels@[i])@ == models[i].label
    &&& parsed.flat_embeddings@ == flattened(models)
}

/// Whether values are an embedding: the right number of finite values, of which
/// `unit` tells whether they have the length of one.
pub fn validate_normalized_embedding<F: Fn(&[u32]) -> bool>(embedding: &[u32], unit: &F) -> (result:
    Result<(), ModelError>)
    requires
        forall|values: &[u32]| #[trigger] call_requires(*unit, (values,)),
    ensures
        forall|decision: spec_fn(Seq<u32>) -> bool| #[trigger]
            decides(*unit, decision) ==> result == (match embedding_error(embedding@, decision) {
                Some(error) => Err(error),
                None => Ok(()),
            }),
        embedding@.len() != FACE_EMBEDDING_DIM || !all_finite(embedding@) ==> result == Err::<
            (),
            ModelError,
        >(ModelError::InvalidEmbedding),
        result is Ok ==> embedding@.len() == FACE_EMBEDDING_DIM && all_finite(embedding@),
{
    if embedding.len() != FACE_EMBEDDING_DIM || !values_are_finite(embedding) {
        return Err(ModelError::InvalidEmbedding);
    }
    if !unit(embedding) {
        return Err(ModelError::NotNormalized);
    }
    Ok(())
}

/// What a parse returned is what the file says.
pub open spec fn parse_is(
    parsed: Result<EnrolledModels, ModelError>,
    file: Result<(Seq<char>, Seq<Enrolled>), ModelError>,
) -> bool {
    match file {
        Err(error) => parsed == Err::<EnrolledModels, ModelError>(error),
        Ok((username, models)) => parsed matches Ok(read) && holds(read, username, models),
    }
}

/// The models read so far are those that the decision accepts.
spec fn reading(
    bytes: Seq<u8>,
    start: int,
    count: nat,
    decision: spec_fn(Seq<u32>) -> bool,
    at: int,
    left: nat,
    models: Seq<Enrolled>,
) -> bool {
    models_at(bytes, start, count, decision, Seq::empty()) == models_at(
        bytes,
        at,
        left,
        decision,
        models,
    )
}

/// Reads a file of enrolled models. `unit` tells whether the values of an
/// embedding have the length of one.
pub fn parse_and_validate_enrolled_model<F: Fn(&[u32]) -> bool>(bytes: &[u8], unit: &F) -> (parsed:
    Result<EnrolledModels, ModelError>)
    requires
        forall|values: &[u32]| #[trigger] call_requires(*unit, (values,)),
    ensures
        forall|decision: spec_fn(Seq<u32>) -> bool| #[trigger]
            decides(*unit, decision) ==> parse_is(parsed, file_of(bytes@, decision)),
{
    let mut reader = ModelReader::new(bytes);
    let username = match reader.string(MAX_USERNAME_BYTES) {
        Ok(username) => username,
        Err(error) => {
            return Err(error);
        },
    };
    let count: usize = match reader.bounded_len(MAX_ENROLLED_MODELS) {
        Ok(count) => count,
        Err(error) => {
            return Err(error);
        },
    };
    if count == 0 {
        return Err(ModelError::Empty);
    }
    let ghost start = reader.position();
    let mut labels: Vec<String> = Vec::new();
    let mut flat_embeddings: Vec<u32> = Vec::new();
    let mut done: usize = 0;
    let ghost mut models: Seq<Enrolled> = Seq::empty();
    while done < count
        invariant
            done <= count,
            reader.wf(),
            reader.content() == bytes@,
            forall|values: &[u32]| #[trigger] call_requires(*unit, (values,)),
            models.len() == done,
            labels@.len() == done,
            forall|i: int| 0 <= i < done ==> (#[trigger] labels@[i])@ == models[i].label,
            flat_embeddings@ == flattened(models),
            text_at(bytes@, 0, MAX_USERNAME_BYTES) matches Ok((name, counted)) && name == username@
                && length_at(bytes@, counted, MAX_ENROLLED_MODELS) == Ok::<(nat, int), ModelError>(
                (count as nat, start),
            ),
            count > 0,
            forall|decision: spec_fn(Seq<u32>) -> bool| #[trigger]
                decides(*unit, decision) ==> reading(
                    bytes@,
                    start,
                    count as nat,
                    decision,
                    reader.position(),
                    (count - done) as nat,
                    models,
                ),
        decreases count - done,
    {
        let ghost at = reader.position();
        let label = match reader.string(MAX_LABEL_BYTES) {
            Ok(label) => label,
            Err(error) => {
                return Err(error);
            },
        };
        let _created: u64 = match reader.u64() {
            Ok(created) => created,
            Err(error) => {
                return Err(error);
            },
        };
        let length: usize = match reader.bounded_len(FACE_EMBEDDING_DIM) {
            Ok(length) => length,
            Err(error) => {
                return Err(error);
            },
        };
        if length != FACE_EMBEDDING_DIM {
            return Err(ModelError::EmbeddingLength);
        }
        let values: Vec<u32> = match reader.values(FACE_EMBEDDING_DIM) {
            Ok(values) => values,
            Err(error) => {
                return Err(error);
            },
        };
        match validate_normalized_embedding(values.as_slice(), unit) {
            Ok(()) => {},
            Err(error) => {
                return Err(error);
            },
        }
        let ghost model = Enrolled { label: label@, values: values@ };
        let ghost before = models;
        flat_embeddings.extend_from_slice(values.as_slice());
        labels.push(label);
        done = done + 1;
        proof {
            models = models.push(model);
            assert(models.drop_last() =~= before);
            assert(flat_embeddings@ =~= flattened(models));
            assert forall|decision: spec_fn(Seq<u32>) -> bool| #[trigger]
                decides(*unit, decision) implies reading(
                bytes@,
                start,
                count as nat,
                decision,
                reader.position(),
                (count - done) as nat,
                models,
            ) by {
                assert(reading(
                    bytes@,
                    start,
                    count as nat,
                    decision,
                    at,
                    (count - done + 1) as nat,
                    before,
                ));
                assert(model_at(bytes@, at, decision) == Ok::<(Enrolled, int), ModelError>(
                    (model, reader.position()),
                ));
            }
        }
    }
    proof {
        assert forall|decision: spec_fn(Seq<u32>) -> bool| #[trigger]
            decides(*unit, decision) implies models_at(
            bytes@,
            start,
            count as nat,
            decision,
            Seq::empty(),
        ) == Ok::<(Seq<Enrolled>, int), ModelError>((models, reader.position())) by {
            assert(reading(
                bytes@,
                start,
                count as nat,
                decision,
                reader.position(),
                0,
                models,
            ));
        }
    }
    if reader.offset != bytes.len() {
        return Err(ModelError::TrailingData);
    }
    Ok(EnrolledModels { username, labels, flat_embeddings, count })
}

/// What an accepted model is: an embedding of finite values with the length of
/// one.
pub open spec fn is_embedding(values: Seq<u32>, unit: spec_fn(Seq<u32>) -> bool) -> bool {
    values.len() == FACE_EMBEDDING_DIM && all_finite(values) && unit(values)
}

proof fn read_models_are_embeddings(
    bytes: Seq<u8>,
    at: int,
    count: nat,
    unit: spec_fn(Seq<u32>) -> bool,
    so_far: Seq<Enrolled>,
)
    requires
        forall|i: int| 0 <= i < so_far.len() ==> is_embedding((#[trigger] so_far[i]).values, unit),
    ensures
        models_at(bytes, at, count, unit, so_far) matches Ok((models, _)) ==> models.len()
            == so_far.len() + count && forall|i: int|
            0 <= i < models.len() ==> is_embedding((#[trigger] models[i]).values, unit),
    decreases count,
{
    if count > 0 {
        match model_at(bytes, at, unit) {
            Ok((model, next)) => {
                assert(is_embedding(model.values, unit));
                read_models_are_embeddings(
                    bytes,
                    next,
                    (count - 1) as nat,
                    unit,
                    so_far.push(model),
                );
            },
            Err(_) => {},
        }
    }
}

/// A file that is accepted holds at least one model and at most the limit, and
/// every one of them is an embedding of finite values with the length of one.
pub proof fn accepted_models_are_embeddings(bytes: Seq<u8>, unit: spec_fn(Seq<u32>) -> bool)
    ensures
        file_of(bytes, unit) matches Ok((_, models)) ==> 0 < models.len() <= MAX_ENROLLED_MODELS
            && forall|i: int|
            0 <= i < models.len() ==> is_embedding((#[trigger] models[i]).values, unit),
{
    match text_at(bytes, 0, MAX_USERNAME_BYTES) {
        Ok((_, counted)) => match length_at(bytes, counted, MAX_ENROLLED_MODELS) {
            Ok((count, start)) => {
                read_models_are_embeddings(bytes, start, count, unit, Seq::empty());
            },
            Err(_) => {},
        },
        Err(_) => {},
    }
}


/// A text as it is written: its length in bytes, and its bytes.
pub open spec fn written_text(text: Seq<char>) -> Seq<u8> {
    le_bytes(encode_utf8(text).len(), 8) + encode_utf8(text)
}

/// Numbers as they are written, four bytes each.
pub open spec fn written_values(values: Seq<u32>) -> Seq<u8>
    decreases values.len(),
{
    if values.len() == 0 {
        Seq::empty()
    } else {
        written_values(values.drop_last()) + le_bytes(values.last() as nat, 4)
    }
}

/// A model as it is written: its label, when it was made, and its 512 numbers behind
/// their count.
pub open spec fn written_model(model: Enrolled, created: nat) -> Seq<u8> {
    written_text(model.label) + le_bytes(created, 8) + le_bytes(512, 8) + written_values(
        model.values,
    )
}

/// Models as they are written, one after the other.
pub open spec fn written_models(models: Seq<Enrolled>, created: Seq<nat>) -> Seq<u8>
    decreases models.len(),
{
    if models.len() == 0 {
        Seq::empty()
    } else {
        written_model(models[0], created[0]) + written_models(models.skip(1), created.skip(1))
    }
}

proof fn written_values_are_read(values: Seq<u32>)
    ensures
        written_values(values).len() == 4 * values.len(),
        forall|i: int|
            0 <= i < values.len() ==> le_value(
                #[trigger] written_values(values).subrange(4 * i, 4 * i + 4),
            ) == values[i],
    decreases values.len(),
{
    if values.len() > 0 {
        let before = values.drop_last();
        let last = values.len() - 1;
        let all = written_values(values);
        written_values_are_read(before);
        byte_ranges();
        numbers_round_trip(values.last() as nat, 4);
        assert forall|i: int| 0 <= i < values.len() implies le_value(
            #[trigger] all.subrange(4 * i, 4 * i + 4),
        ) == values[i] by {
            if i < last {
                assert(all.subrange(4 * i, 4 * i + 4) =~= written_values(before).subrange(
                    4 * i,
                    4 * i + 4,
                ));
                assert(before[i] == values[i]);
            } else {
                assert(all.subrange(4 * i, 4 * i + 4) =~= le_bytes(values.last() as nat, 4));
            }
        }
    }
}

proof fn written_numbers_are_read(before: Seq<u8>, value: nat, after: Seq<u8>)
    requires
        value < 0x1_0000_0000_0000_0000,
    ensures
        number_at(before + le_bytes(value, 8) + after, before.len() as int) == Ok::<
            (nat, int),
            ModelError,
        >((value, (before.len() + 8) as int)),
{
    let bytes = before + le_bytes(value, 8) + after;
    let at = before.len() as int;
    byte_ranges();
    numbers_round_trip(value, 8);
    assert(bytes.subrange(at, at + 8) =~= le_bytes(value, 8));
}

proof fn written_texts_are_read(before: Seq<u8>, text: Seq<char>, after: Seq<u8>, maximum: usize)
    requires
        encode_utf8(text).len() <= maximum,
    ensures
        text_at(before + written_text(text) + after, before.len() as int, maximum) == Ok::<
            (Seq<char>, int),
            ModelError,
        >((text, (before.len() + written_text(text).len()) as int)),
{
    let encoded = encode_utf8(text);
    let bytes = before + written_text(text) + after;
    let start = before.len() + 8int;
    byte_ranges();
    numbers_round_trip(encoded.len(), 8);
    assert(bytes =~= before + le_bytes(encoded.len(), 8) + (encoded + after));
    written_numbers_are_read(before, encoded.len(), encoded + after);
    assert(bytes.subrange(start, start + encoded.len()) =~= encoded);
    encode_utf8_valid_utf8(text);
    encode_utf8_decode_utf8(text);
}

proof fn written_models_are_read_one_by_one(
    before: Seq<u8>,
    model: Enrolled,
    created: nat,
    after: Seq<u8>,
    unit: spec_fn(Seq<u32>) -> bool,
)
    requires
        encode_utf8(model.label).len() <= 128,
        created < 0x1_0000_0000_0000_0000,
        is_embedding(model.values, unit),
    ensures
        model_at(before + written_model(model, created) + after, before.len() as int, unit) == Ok::<
            (Enrolled, int),
            ModelError,
        >((model, (before.len() + written_model(model, created).len()) as int)),
{
    let label = written_text(model.label);
    let values = written_values(model.values);
    let bytes = before + written_model(model, created) + after;
    byte_ranges();
    numbers_round_trip(created, 8);
    numbers_round_trip(512, 8);
    written_values_are_read(model.values);
    let rest = le_bytes(created, 8) + le_bytes(512, 8) + values + after;
    assert(bytes =~= before + label + rest);
    written_texts_are_read(before, model.label, rest, MAX_LABEL_BYTES);
    assert(bytes =~= (before + label) + le_bytes(created, 8) + (le_bytes(512, 8) + values + after));
    written_numbers_are_read(before + label, created, le_bytes(512, 8) + values + after);
    assert(bytes =~= (before + label + le_bytes(created, 8)) + le_bytes(512, 8) + (values + after));
    written_numbers_are_read(before + label + le_bytes(created, 8), 512, values + after);
    let start = before.len() + label.len() + 16;
    assert(values_at(bytes, start as int, 512) =~= model.values) by {
        assert forall|i: int| 0 <= i < 512 implies values_at(bytes, start as int, 512)[i]
            == model.values[i] by {
            assert(bytes.subrange(start + 4 * i, start + 4 * i + 4) =~= values.subrange(
                4 * i,
                4 * i + 4,
            ));
        }
    }
}

proof fn written_models_are_read(
    before: Seq<u8>,
    models: Seq<Enrolled>,
    created: Seq<nat>,
    unit: spec_fn(Seq<u32>) -> bool,
    so_far: Seq<Enrolled>,
)
    requires
        created.len() == models.len(),
        forall|i: int|
            0 <= i < models.len() ==> encode_utf8((#[trigger] models[i]).label).len() <= 128
                && is_embedding(models[i].values, unit),
        forall|i: int| 0 <= i < created.len() ==> #[trigger] created[i] < 0x1_0000_0000_0000_0000,
    ensures
        models_at(
            before + written_models(models, created),
            before.len() as int,
            models.len(),
            unit,
            so_far,
        ) == Ok::<(Seq<Enrolled>, int), ModelError>(
            (so_far + models, (before.len() + written_models(models, created).len()) as int),
        ),
    decreases models.len(),
{
    let bytes = before + written_models(models, created);
    if models.len() == 0 {
        assert(so_far + models =~= so_far);
    } else {
        let first = written_model(models[0], created[0]);
        let rest = models.skip(1);
        let dates = created.skip(1);
        let after = written_models(rest, dates);
        assert(bytes =~= before + first + after);
        assert(created[0] < 0x1_0000_0000_0000_0000);
        written_models_are_read_one_by_one(before, models[0], created[0], after, unit);
        assert forall|i: int| 0 <= i < rest.len() implies encode_utf8(
            (#[trigger] rest[i]).label,
        ).len() <= 128 && is_embedding(rest[i].values, unit) by {
            assert(rest[i] == models[i + 1]);
        }
        assert forall|i: int| 0 <= i < dates.len() implies #[trigger] dates[i]
            < 0x1_0000_0000_0000_0000 by {
            assert(dates[i] == created[i + 1]);
        }
        written_models_are_read(before + first, rest, dates, unit, so_far.push(models[0]));
        assert(so_far.push(models[0]) + rest =~= so_far + models);
    }
}

/// A file that was written is read as it was written: the same name of the user, and the
/// same models in the same order, each with its label and its numbers.
pub proof fn written_files_are_read(
    username: Seq<char>,
    models: Seq<Enrolled>,
    created: Seq<nat>,
    unit: spec_fn(Seq<u32>) -> bool,
)
    requires
        encode_utf8(username).len() <= 128,
        1 <= models.len() <= 256,
        created.len() == models.len(),
        forall|i: int|
            0 <= i < models.len() ==> encode_utf8((#[trigger] models[i]).label).len() <= 128
                && is_embedding(models[i].values, unit),
        forall|i: int| 0 <= i < created.len() ==> #[trigger] created[i] < 0x1_0000_0000_0000_0000,
    ensures
        file_of(
            written_text(username) + le_bytes(models.len(), 8) + written_models(models, created),
            unit,
        ) == Ok::<(Seq<char>, Seq<Enrolled>), ModelError>((username, models)),
{
    let name = written_text(username);
    let tail = written_models(models, created);
    let bytes = name + le_bytes(models.len(), 8) + tail;
    byte_ranges();
    numbers_round_trip(models.len(), 8);
    assert(bytes =~= Seq::<u8>::empty() + name + (le_bytes(models.len(), 8) + tail));
    written_texts_are_read(
        Seq::<u8>::empty(),
        username,
        le_bytes(models.len(), 8) + tail,
        MAX_USERNAME_BYTES,
    );
    written_numbers_are_read(name, models.len(), tail);
    written_models_are_read(
        name + le_bytes(models.len(), 8),
        models,
        created,
        unit,
        Seq::empty(),
    );
    assert(Seq::<Enrolled>::empty() + models =~= models);
}

/// The numbers of all models stand one model after the other, 512 of each.
pub proof fn flat_embeddings_follow_the_models(models: Seq<Enrolled>, i: int, n: int)
    requires
        0 <= i < models.len(),
        0 <= n < 512,
        forall|k: int| 0 <= k < models.len() ==> (#[trigger] models[k]).values.len() == 512,
    ensures
        flattened(models).len() == 512 * models.len(),
        flattened(models)[512 * i + n] == models[i].values[n],
    decreases models.len(),
{
    let before = models.drop_last();
    assert forall|k: int| 0 <= k < before.len() implies (#[trigger] before[k]).values.len()
        == 512 by {
        assert(before[k] == models[k]);
    }
    assert(models[models.len() - 1].values.len() == 512);
    if before.len() == 0 {
        assert(flattened(before).len() == 0);
    } else {
        flat_embeddings_follow_the_models(before, if i < before.len() {
            i
        } else {
            0
        }, n);
    }
}


/// What is read of a file is laid out by model: the label of each, and its 512 numbers
/// behind those of the models before it.
pub proof fn parsed_files_are_laid_out_by_model(
    parsed: EnrolledModels,
    username: Seq<char>,
    models: Seq<Enrolled>,
    i: int,
    n: int,
)
    requires
        holds(parsed, username, models),
        0 <= i < models.len(),
        0 <= n < 512,
        forall|k: int| 0 <= k < models.len() ==> (#[trigger] models[k]).values.len() == 512,
    ensures
        parsed.username@ == username,
        parsed.count == models.len(),
        parsed.labels@.len() == models.len(),
        parsed.labels@[i]@ == models[i].label,
        parsed.flat_embeddings@.len() == 512 * models.len(),
        parsed.flat_embeddings@[512 * i + n] == models[i].values[n],
{
    flat_embeddings_follow_the_models(models, i, n);
}

} // verus!
