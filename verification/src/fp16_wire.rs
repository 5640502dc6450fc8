//! How much of each thing a message of the precision experiment may carry.
use crate::fp16_cache::MAX_CACHE_ARTIFACTS;
use crate::fp16_corpus::{
    MAX_FACES_PER_FIXTURE, MAX_FIXTURES, MAX_FIXTURE_BYTES, MAX_ONNX_MODEL_BYTES,
};
use crate::fp16_model::MAX_ENROLLED_MODEL_BYTES;
use crate::fp16_placement::MAX_PROFILE_NODES;
use crate::fp16_provenance::MAX_RUNTIME_LIBRARIES;
use crate::inference::FACE_EMBEDDING_DIM;
use vstd::prelude::*;
use vstd::string::*;

verus! {

pub const MAX_DIGEST_BYTES: usize = 64;

pub const MAX_SHORT_STRING_BYTES: usize = 128;

pub const MAX_WIRE_STRING_BYTES: usize = 4096;

pub const MAX_ENVIRONMENT_ENTRIES: usize = 32;

pub const MAX_PROVIDERS: usize = 16;

/// What a message carries more than one of.
#[derive(Clone, Copy, Debug, PartialEq, Eq, Structural)]
pub enum WirePart {
    /// The bytes of a digest.
    Digest,
    /// The bytes of a short text.
    ShortText,
    /// The bytes of any other text.
    Text,
    FixtureBytes,
    OnnxBytes,
    EnrolledBytes,
    Fixtures,
    CacheArtifacts,
    RuntimeLibraries,
    Records,
    Faces,
    /// The values of an embedding.
    Embedding,
    /// The variables that an environment does without.
    EnvironmentNames,
    /// The variables that an environment sets.
    EnvironmentEntries,
    Providers,
    PlacementNodes,
}

#[derive(Clone, Copy, Debug, PartialEq, Eq, Structural)]
pub enum WireError {
    StringLimit,
    CollectionLimit,
    EnvironmentLimit,
    PlacementLimit,
}

impl WireError {
    /// The word that stands for the error.
    pub fn code(self) -> (code: &'static str)
        ensures
            code@ == (match self {
                WireError::StringLimit => "wire_string_limit"@,
                WireError::CollectionLimit => "wire_collection_limit"@,
                WireError::EnvironmentLimit => "wire_environment_limit"@,
                WireError::PlacementLimit => "wire_placement_limit"@,
            }),
    {
        match self {
            WireError::StringLimit => "wire_string_limit",
            WireError::CollectionLimit => "wire_collection_limit",
            WireError::EnvironmentLimit => "wire_environment_limit",
            WireError::PlacementLimit => "wire_placement_limit",
        }
    }
}

impl WirePart {
    /// The most that a message may carry.
    pub open spec fn most(self) -> usize {
        match self {
            WirePart::Digest => MAX_DIGEST_BYTES,
            WirePart::ShortText => MAX_SHORT_STRING_BYTES,
            WirePart::Text => MAX_WIRE_STRING_BYTES,
            WirePart::FixtureBytes => MAX_FIXTURE_BYTES,
            WirePart::OnnxBytes => MAX_ONNX_MODEL_BYTES,
            WirePart::EnrolledBytes => MAX_ENROLLED_MODEL_BYTES,
            WirePart::Fixtures => MAX_FIXTURES,
            WirePart::CacheArtifacts => MAX_CACHE_ARTIFACTS,
            WirePart::RuntimeLibraries => MAX_RUNTIME_LIBRARIES,
            WirePart::Records => MAX_FIXTURES,
            WirePart::Faces => MAX_FACES_PER_FIXTURE,
            WirePart::Embedding => FACE_EMBEDDING_DIM,
            WirePart::EnvironmentNames => MAX_ENVIRONMENT_ENTRIES,
            WirePart::EnvironmentEntries => MAX_ENVIRONMENT_ENTRIES,
            WirePart::Providers => MAX_PROVIDERS,
            WirePart::PlacementNodes => MAX_PROFILE_NODES,
        }
    }

    /// What is wrong with a message that carries more.
    pub open spec fn excess(self) -> WireError {
        match self {
            WirePart::Digest | WirePart::ShortText | WirePart::Text => WireError::StringLimit,
            WirePart::EnvironmentEntries => WireError::EnvironmentLimit,
            WirePart::PlacementNodes => WireError::PlacementLimit,
            _ => WireError::CollectionLimit,
        }
    }

    pub fn limit(self) -> (limit: usize)
        ensures
            limit == self.most(),
    {
        match self {
            WirePart::Digest => MAX_DIGEST_BYTES,
            WirePart::ShortText => MAX_SHORT_STRING_BYTES,
            WirePart::Text => MAX_WIRE_STRING_BYTES,
            WirePart::FixtureBytes => MAX_FIXTURE_BYTES,
            WirePart::OnnxBytes => MAX_ONNX_MODEL_BYTES,
            WirePart::EnrolledBytes => MAX_ENROLLED_MODEL_BYTES,
            WirePart::Fixtures => MAX_FIXTURES,
            WirePart::CacheArtifacts => MAX_CACHE_ARTIFACTS,
            WirePart::RuntimeLibraries => MAX_RUNTIME_LIBRARIES,
            WirePart::Records => MAX_FIXTURES,
            WirePart::Faces => MAX_FACES_PER_FIXTURE,
            WirePart::Embedding => FACE_EMBEDDING_DIM,
            WirePart::EnvironmentNames => MAX_ENVIRONMENT_ENTRIES,
            WirePart::EnvironmentEntries => MAX_ENVIRONMENT_ENTRIES,
            WirePart::Providers => MAX_PROVIDERS,
            WirePart::PlacementNodes => MAX_PROFILE_NODES,
        }
    }

    fn error(self) -> (error: WireError)
        ensures
            error == self.excess(),
    {
        match self {
            WirePart::Digest | WirePart::ShortText | WirePart::Text => WireError::StringLimit,
            WirePart::EnvironmentEntries => WireError::EnvironmentLimit,
            WirePart::PlacementNodes => WireError::PlacementLimit,
            _ => WireError::CollectionLimit,
        }
    }

    /// Whether a message may carry as much as it announces or, of a text, as much
    /// as it holds.
    pub fn check_length(self, length: usize) -> (result: Result<(), WireError>)
        ensures
            result == (if length <= self.most() {
                Ok(())
            } else {
                Err(self.excess())
            }),
    {
        if length > self.limit() {
            return Err(self.error());
        }
        Ok(())
    }

    /// Whether there is room for another, with as many taken as are held.
    pub fn check_room(self, held: usize) -> (result: Result<(), WireError>)
        requires
            held <= self.most(),
        ensures
            result == (if held < self.most() {
                Ok(())
            } else {
                Err(self.excess())
            }),
    {
        if held == self.limit() {
            return Err(self.error());
        }
        Ok(())
    }
}

/// How many are held after as many more were taken as a message carries, if there
/// was always room.
pub open spec fn taken(part: WirePart, held: nat, more: nat) -> Option<nat>
    decreases more,
{
    if more == 0 {
        Some(held)
    } else if held < part.most() {
        taken(part, held + 1, (more - 1) as nat)
    } else {
        None
    }
}

/// As long as there is room, a collection grows to what a message carries, and
/// never beyond the limit.
pub proof fn collections_are_bounded(part: WirePart, held: nat, more: nat)
    requires
        held <= part.most(),
    ensures
        taken(part, held, more) == (if held + more <= part.most() {
            Some(held + more)
        } else {
            None::<nat>
        }),
    decreases more,
{
    if more > 0 && held < part.most() {
        collections_are_bounded(part, held + 1, (more - 1) as nat);
    }
}


/// What may be sent at most: short texts and digests, texts of a page, pictures of four
/// megabytes, networks of 192, an enrolled model of eight, and so many of each.
pub proof fn parts_have_their_limits(part: WirePart)
    ensures
        part == WirePart::Digest ==> part.most() == 64,
        part == WirePart::ShortText ==> part.most() == 128,
        part == WirePart::Text ==> part.most() == 4096,
        part == WirePart::FixtureBytes ==> part.most() == 4194304,
        part == WirePart::OnnxBytes ==> part.most() == 201326592,
        part == WirePart::EnrolledBytes ==> part.most() == 8388608,
        part == WirePart::Fixtures || part == WirePart::Records ==> part.most() == 32,
        part == WirePart::CacheArtifacts ==> part.most() == 4096,
        part == WirePart::RuntimeLibraries ==> part.most() == 64,
        part == WirePart::Faces ==> part.most() == 16,
        part == WirePart::Embedding ==> part.most() == 512,
        part == WirePart::EnvironmentNames || part == WirePart::EnvironmentEntries ==> part.most()
            == 32,
        part == WirePart::Providers ==> part.most() == 16,
        part == WirePart::PlacementNodes ==> part.most() == 20000,
        part.excess() == WireError::StringLimit <==> part == WirePart::Digest || part
            == WirePart::ShortText || part == WirePart::Text,
        part.excess() == WireError::EnvironmentLimit <==> part == WirePart::EnvironmentEntries,
        part.excess() == WireError::PlacementLimit <==> part == WirePart::PlacementNodes,
{
}

} // verus!
