//! The inputs of the precision experiment: how each file is read, what may be
//! among them, and the digest that stands for all of them.
use crate::digest::{
    absorb, absorbed, digest_hex, digest_text, finish, hex_encode, hex_texts_are_ascii, new_hasher,
};
use crate::fp16_model::{
    decides, file_of, parse_and_validate_enrolled_model, parse_is, ModelError,
};
use crate::paths::{contained_path, is_contained_path};
use crate::text::str_eq;
use crate::wire::{
    byte_range, equal_parts_agree, le_bytes, measured, measured_parts_agree, numbers_round_trip,
    push_le,
};
use crate::wiping::{
    take_bytes, take_text, wipe_bytes, wipe_bytes_in_place, wipe_optional_bytes, wipe_text,
};
use vstd::prelude::*;
use vstd::string::*;
use vstd::utf8::*;

verus! {

pub const MAX_MANIFEST_BYTES: usize = 1048576;

pub const MAX_FIXTURES: usize = 32;

pub const MAX_FIXTURE_BYTES: usize = 4194304;

pub const MAX_TOTAL_FIXTURE_BYTES: u64 = 33554432;

pub const MAX_PIXELS_PER_FIXTURE: u64 = 8000000;

pub const MAX_TOTAL_PIXELS: u64 = 32000000;

pub const MAX_FACES_PER_FIXTURE: usize = 16;

pub const MAX_ONNX_MODEL_BYTES: usize = 201326592;

pub const MAX_TOTAL_ONNX_BYTES: u64 = 268435456;

/// What must not change while a file is read or hashed.
#[derive(Clone, Copy, Debug, PartialEq, Eq, Structural)]
pub struct ArtifactStamp {
    pub device: u64,
    pub inode: u64,
    pub length: u64,
    pub mtime: i64,
    pub mtime_nsec: i64,
    pub ctime: i64,
    pub ctime_nsec: i64,
}

/// Whether a file stayed what it was while all of it was hashed.
pub fn verify_hash_coherence(before: &ArtifactStamp, after: &ArtifactStamp, bytes_read: u64) -> (coherent:
    bool)
    ensures
        coherent == (*before == *after && before.length == bytes_read),
{
    *before == *after && before.length == bytes_read
}

/// A file on its device.
#[derive(Clone, Copy, Debug, PartialEq, Eq, Structural)]
pub struct FileId {
    pub device: u64,
    pub inode: u64,
}

/// What the system says of an opened file.
#[derive(Clone, Copy, Debug, PartialEq, Eq, Structural)]
pub struct InputMetadata {
    pub stamp: ArtifactStamp,
    pub is_file: bool,
    pub uid: u32,
    pub mode: u32,
}

#[derive(Clone, Copy, Debug, PartialEq, Eq, Structural)]
pub enum InputError {
    NotRegular,
    OwnerMismatch,
    ModeTooOpen,
    SizeLimit,
    SizeChanged,
    ChangedDuringRead,
}

/// Why an opened file is not read: it must be a regular file of the user's own,
/// if it is private readable to nobody else, and neither empty nor too large.
pub open spec fn input_error(
    metadata: InputMetadata,
    user: u32,
    max_bytes: usize,
    private: bool,
) -> Option<InputError> {
    if !metadata.is_file {
        Some(InputError::NotRegular)
    } else if metadata.uid != user {
        Some(InputError::OwnerMismatch)
    } else if private && metadata.mode % 4096 != 0o400 && metadata.mode % 4096 != 0o600 {
        Some(InputError::ModeTooOpen)
    } else if metadata.stamp.length == 0 || metadata.stamp.length > max_bytes {
        Some(InputError::SizeLimit)
    } else {
        None
    }
}

/// The number of bytes to read from an opened file.
pub fn check_input(metadata: &InputMetadata, user: u32, max_bytes: usize, private: bool) -> (size:
    Result<usize, InputError>)
    ensures
        size == (match input_error(*metadata, user, max_bytes, private) {
            Some(error) => Err(error),
            None => Ok(metadata.stamp.length as usize),
        }),
{
    if !metadata.is_file {
        return Err(InputError::NotRegular);
    }
    if metadata.uid != user {
        return Err(InputError::OwnerMismatch);
    }
    if private && metadata.mode % 4096 != 0o400 && metadata.mode % 4096 != 0o600 {
        return Err(InputError::ModeTooOpen);
    }
    if metadata.stamp.length == 0 || metadata.stamp.length > max_bytes as u64 {
        return Err(InputError::SizeLimit);
    }
    Ok(metadata.stamp.length as usize)
}

/// The bytes of an input with their digest and the file that they came from.
#[derive(Debug)]
pub struct SecureBlob {
    pub bytes: Vec<u8>,
    pub digest: String,
    pub identity: FileId,
}

impl SecureBlob {
    /// The digest is that of the bytes.
    pub open spec fn wf(&self) -> bool {
        self.digest@ == digest_text(self.bytes@)
    }

    /// Takes the content out of an input that is no longer needed.
    pub fn zeroize(&mut self)
        ensures
            final(self).bytes@.len() == 0,
            final(self).digest@.len() == 0,
            final(self).identity == old(self).identity,
        opens_invariants none
        no_unwind
    {
        wipe_bytes(&mut self.bytes);
        wipe_text(&mut self.digest);
    }
}

impl Drop for SecureBlob {
    /// An input that goes out of use leaves nothing in memory.
    fn drop(&mut self)
        opens_invariants none
        no_unwind
    {
        self.zeroize();
    }
}

/// Takes what was read from a file that was checked before: as many bytes as it
/// had, and the file still as it was.
pub fn accept_input(before: &ArtifactStamp, bytes: Vec<u8>, after: &ArtifactStamp) -> (blob: Result<
    SecureBlob,
    InputError,
>)
    ensures
        match blob {
            Ok(accepted) => {
                &&& bytes@.len() == before.length && *before == *after
                &&& accepted.bytes@ == bytes@
                &&& accepted.wf()
                &&& accepted.identity == (FileId { device: before.device, inode: before.inode })
            },
            Err(error) => error == (if bytes@.len() != before.length {
                InputError::SizeChanged
            } else {
                InputError::ChangedDuringRead
            }) && (bytes@.len() != before.length || *before != *after),
        },
{
    if bytes.len() as u64 != before.length {
        return Err(InputError::SizeChanged);
    }
    if *before != *after {
        return Err(InputError::ChangedDuringRead);
    }
    let digest = digest_hex(bytes.as_slice());
    Ok(
        SecureBlob {
            bytes,
            digest,
            identity: FileId { device: before.device, inode: before.inode },
        },
    )
}

/// Whether a directory is the user's own and closed to everybody else.
pub open spec fn private_directory(is_dir: bool, uid: u32, user: u32, mode: u32) -> bool {
    is_dir && uid == user && mode % 4096 == 0o700
}

pub fn is_private_directory(is_dir: bool, uid: u32, user: u32, mode: u32) -> (private: bool)
    ensures
        private == private_directory(is_dir, uid, user, mode),
{
    is_dir && uid == user && mode % 4096 == 0o700
}

/// A digest of a file of unknown length, up to a limit.
pub struct DigestRead {
    hasher: sha2::Sha256,
    total: u64,
    maximum: u64,
}

impl DigestRead {
    pub closed spec fn content(&self) -> Seq<u8> {
        absorbed(self.hasher)
    }

    pub closed spec fn limit(&self) -> u64 {
        self.maximum
    }

    pub closed spec fn wf(&self) -> bool {
        self.total == self.content().len() && self.total <= self.maximum
    }

    pub fn begin(maximum: u64) -> (read: Self)
        ensures
            read.wf(),
            read.limit() == maximum,
            read.content() == Seq::<u8>::empty(),
    {
        DigestRead { hasher: new_hasher(), total: 0, maximum }
    }

    /// Takes what a read returned. Nothing is added beyond the limit.
    pub fn add_piece(&mut self, piece: &[u8]) -> (within: bool)
        requires
            old(self).wf(),
        ensures
            final(self).wf(),
            final(self).limit() == old(self).limit(),
            within == (old(self).content().len() + piece@.len() <= old(self).limit()),
            final(self).content() == (if within {
                old(self).content() + piece@
            } else {
                old(self).content()
            }),
    {
        if piece.len() as u64 > self.maximum - self.total {
            return false;
        }
        absorb(&mut self.hasher, piece);
        self.total = self.total + piece.len() as u64;
        true
    }

    /// The digest of everything that was read, and its length.
    pub fn finish_read(self) -> (result: (String, u64))
        requires
            self.wf(),
        ensures
            result.0@ == digest_text(self.content()),
            result.1 == self.content().len(),
    {
        let digest = finish(self.hasher);
        (hex_encode(digest.as_slice()), self.total)
    }
}

#[derive(Clone, Copy, Debug, PartialEq, Eq, Structural)]
pub enum FixtureClass {
    Positive,
    Negative,
}

/// One line of the manifest.
#[derive(Debug)]
pub struct ManifestEntry {
    pub path: String,
    pub class: FixtureClass,
}

/// A fixture as the workers get it.
#[derive(Debug)]
pub struct PinnedFixture {
    pub index: usize,
    pub class: FixtureClass,
    pub digest: String,
    pub encoded: Vec<u8>,
}

impl PinnedFixture {
    /// Takes the content out of a fixture that is no longer needed.
    pub fn zeroize(&mut self)
        ensures
            final(self).index == old(self).index,
            final(self).class == old(self).class,
            final(self).digest@.len() == 0,
            final(self).encoded@.len() == 0,
        opens_invariants none
        no_unwind
    {
        wipe_text(&mut self.digest);
        wipe_bytes(&mut self.encoded);
    }
}

impl Drop for PinnedFixture {
    /// A fixture that goes out of use leaves nothing in memory.
    fn drop(&mut self)
        opens_invariants none
        no_unwind
    {
        self.zeroize();
    }
}

/// All inputs of a run.
#[derive(Debug)]
pub struct PinnedCorpus {
    pub detector_digest: String,
    pub detector_model: Vec<u8>,
    pub recognizer_digest: String,
    pub recognizer_model: Vec<u8>,
    pub enrolled_model: Option<Vec<u8>>,
    pub fixtures: Vec<PinnedFixture>,
}

#[derive(Clone, Copy, Debug, PartialEq, Eq, Structural)]
pub enum CorpusError {
    ManifestEntryLimit,
    UnsafeRelativePath,
    DuplicateFixturePath,
    DuplicateFixtureFileOrContent,
    FixtureTotalByteLimit,
    /// The dimensions of an image could not be told.
    UnreadableImage,
    PixelLimit,
    TotalPixelLimit,
    OnnxTotalByteLimit,
    DuplicateOnnxModels,
    InputFileAlias,
    InputContentAlias,
    DuplicateSensitiveFile,
    DuplicateSensitiveContent,
    EnrolledModel(ModelError),
    DimensionMismatch,
    FaceLimit,
}

/// What the header of an encoded image says of its width and height.
pub uninterp spec fn image_header(encoded: Seq<u8>) -> Option<(u32, u32)>;

/// Reads the dimensions of an encoded image.
///
/// Calls `image::guess_format`, which tells the format by the first bytes from a
/// fixed table, and `image::ImageReader::into_dimensions` with that format, which
/// decodes the header. The result depends on the bytes alone; there is none where
/// the format is not known or the header cannot be decoded. Which headers can be
/// decoded is not stated.
#[verifier::external_body]
fn read_image_header(encoded: &[u8]) -> (dimensions: Option<(u32, u32)>)
    ensures
        dimensions == image_header(encoded@),
{
    let format = image::guess_format(encoded).ok()?;
    let source = std::io::Cursor::new(encoded);
    image::ImageReader::with_format(source, format).into_dimensions().ok()
}

/// Whether an image has at most as many pixels as one fixture may have.
pub fn validate_pixels(width: u32, height: u32) -> (result: Result<(), CorpusError>)
    ensures
        result == (if width * height > MAX_PIXELS_PER_FIXTURE {
            Err(CorpusError::PixelLimit)
        } else {
            Ok(())
        }),
{
    assert(width as int * height as int <= u32::MAX * u32::MAX) by (nonlinear_arith)
        requires
            0 <= width <= u32::MAX,
            0 <= height <= u32::MAX,
    ;
    if width as u64 * height as u64 > MAX_PIXELS_PER_FIXTURE {
        return Err(CorpusError::PixelLimit);
    }
    Ok(())
}

/// The dimensions of a fixture, given what its header says.
pub open spec fn fixture_dimensions(header: Option<(u32, u32)>) -> Result<(u32, u32), CorpusError> {
    match header {
        None => Err(CorpusError::UnreadableImage),
        Some((width, height)) => if width * height > MAX_PIXELS_PER_FIXTURE {
            Err(CorpusError::PixelLimit)
        } else {
            Ok((width, height))
        },
    }
}

pub fn check_dimensions(header: Option<(u32, u32)>) -> (dimensions: Result<(u32, u32), CorpusError>)
    ensures
        dimensions == fixture_dimensions(header),
{
    match header {
        None => Err(CorpusError::UnreadableImage),
        Some((width, height)) => {
            validate_pixels(width, height)?;
            Ok((width, height))
        },
    }
}

/// The dimensions of an encoded fixture.
pub fn inspect_image_dimensions(encoded: &[u8]) -> (dimensions: Result<(u32, u32), CorpusError>)
    ensures
        dimensions == fixture_dimensions(image_header(encoded@)),
{
    check_dimensions(read_image_header(encoded))
}

/// The inputs that have been accepted so far.
pub struct CorpusPin {
    pub entries: Vec<ManifestEntry>,
    pub identities: Vec<FileId>,
    pub digests: Vec<String>,
    pub total_bytes: u64,
    pub total_pixels: u64,
    pub fixtures: Vec<PinnedFixture>,
}

pub open spec fn views(texts: Seq<String>) -> Seq<Seq<char>> {
    texts.map_values(|text: String| text@)
}

/// The bytes of fixtures, added up.
pub open spec fn encoded_bytes(fixtures: Seq<PinnedFixture>) -> nat
    decreases fixtures.len(),
{
    if fixtures.len() == 0 {
        0
    } else {
        encoded_bytes(fixtures.drop_last()) + fixtures.last().encoded@.len()
    }
}

/// Fixtures carry their number and the digest of their bytes.
pub open spec fn fixtures_are_pinned(fixtures: Seq<PinnedFixture>) -> bool {
    forall|i: int|
        0 <= i < fixtures.len() ==> (#[trigger] fixtures[i]).index == i && fixtures[i].digest@
            == digest_text(fixtures[i].encoded@)
}

impl CorpusPin {
    pub open spec fn digest_views(&self) -> Seq<Seq<char>> {
        views(self.digests@)
    }

    /// No file and no content occurs twice; behind the manifest come the
    /// fixtures in the order of their numbers, each from a path of its own below
    /// the fixture directory; the totals are kept and within their limits.
    pub open spec fn wf(&self) -> bool {
        &&& self.identities@.no_duplicates()
        &&& self.digest_views().no_duplicates()
        &&& 0 < self.entries@.len() <= MAX_FIXTURES
        &&& self.fixtures@.len() <= self.entries@.len()
        &&& self.digests@.len() >= 1 + self.fixtures@.len()
        &&& fixtures_are_pinned(self.fixtures@)
        &&& forall|i: int|
            0 <= i < self.fixtures@.len() ==> (#[trigger] self.fixtures@[i]).digest@
                == self.digest_views()[i + 1] && self.fixtures@[i].class
                == self.entries@[i].class
        &&& forall|i: int|
            0 <= i < self.fixtures@.len() ==> contained_path(
                encode_utf8((#[trigger] self.entries@[i]).path@),
            )
        &&& forall|i: int, j: int|
            0 <= i < j < self.fixtures@.len() ==> (#[trigger] self.entries@[i]).path@ != (
            #[trigger] self.entries@[j]).path@
        &&& self.total_bytes == encoded_bytes(self.fixtures@)
        &&& self.total_bytes <= MAX_TOTAL_FIXTURE_BYTES
        &&& self.total_pixels <= MAX_TOTAL_PIXELS
    }

    /// Begins with the manifest, which counts as an input itself.
    pub fn begin(manifest: &SecureBlob, entries: Vec<ManifestEntry>) -> (pin: Result<
        Self,
        CorpusError,
    >)
        ensures
            match pin {
                Ok(started) => {
                    &&& 0 < entries@.len() <= MAX_FIXTURES
                    &&& started.wf()
                    &&& started.entries == entries
                    &&& started.identities@ == seq![manifest.identity]
                    &&& started.digest_views() == seq![manifest.digest@]
                    &&& started.fixtures@.len() == 0
                    &&& started.total_bytes == 0 && started.total_pixels == 0
                },
                Err(error) => !(0 < entries@.len() <= MAX_FIXTURES) && error
                    == CorpusError::ManifestEntryLimit,
            },
    {
        if entries.len() == 0 || entries.len() > MAX_FIXTURES {
            return Err(CorpusError::ManifestEntryLimit);
        }
        let mut identities: Vec<FileId> = Vec::new();
        identities.push(manifest.identity);
        let mut digests: Vec<String> = Vec::new();
        digests.push(manifest.digest.as_str().to_owned());
        assert(identities@ =~= seq![manifest.identity]);
        assert(views(digests@) =~= seq![manifest.digest@]);
        Ok(
            CorpusPin {
                entries,
                identities,
                digests,
                total_bytes: 0,
                total_pixels: 0,
                fixtures: Vec::new(),
            },
        )
    }

    /// Why the next fixture's path is rejected: it must stay below the fixture
    /// directory and not have come before.
    pub open spec fn path_error(&self) -> Option<CorpusError> {
        let at = self.fixtures@.len() as int;
        let path = self.entries@[at].path@;
        if !contained_path(encode_utf8(path)) {
            Some(CorpusError::UnsafeRelativePath)
        } else if exists|i: int| 0 <= i < at && (#[trigger] self.entries@[i]).path@ == path {
            Some(CorpusError::DuplicateFixturePath)
        } else {
            None
        }
    }

    /// The path of the fixture that is to be read next; `None` where all have
    /// been.
    pub fn next_path(&self) -> (path: Result<Option<&str>, CorpusError>)
        requires
            self.wf(),
        ensures
            match path {
                Ok(None) => self.fixtures@.len() == self.entries@.len(),
                Ok(Some(next)) => self.fixtures@.len() < self.entries@.len()
                    && self.path_error() is None && next@
                    == self.entries@[self.fixtures@.len() as int].path@,
                Err(error) => self.fixtures@.len() < self.entries@.len() && self.path_error()
                    == Some(error),
            },
    {
        let at: usize = self.fixtures.len();
        if at == self.entries.len() {
            return Ok(None);
        }
        let path = self.entries[at].path.as_str();
        if !is_contained_path(path.as_bytes()) {
            return Err(CorpusError::UnsafeRelativePath);
        }
        let mut index: usize = 0;
        while index < at
            invariant
                index <= at < self.entries@.len(),
                at == self.fixtures@.len(),
                path@ == self.entries@[at as int].path@,
                contained_path(encode_utf8(path@)),
                forall|i: int| 0 <= i < index ==> (#[trigger] self.entries@[i]).path@ != path@,
            decreases at - index,
        {
            if str_eq(self.entries[index].path.as_str(), path) {
                assert(self.entries@[index as int].path@ == path@);
                return Err(CorpusError::DuplicateFixturePath);
            }
            index = index + 1;
        }
        Ok(Some(path))
    }

    fn has_identity(&self, identity: FileId) -> (found: bool)
        ensures
            found == self.identities@.contains(identity),
    {
        let mut index: usize = 0;
        while index < self.identities.len()
            invariant
                index <= self.identities@.len(),
                forall|i: int| 0 <= i < index ==> #[trigger] self.identities@[i] != identity,
            decreases self.identities.len() - index,
        {
            if self.identities[index] == identity {
                assert(self.identities@[index as int] == identity);
                return true;
            }
            index = index + 1;
        }
        false
    }

    fn has_digest(&self, digest: &str) -> (found: bool)
        ensures
            found == self.digest_views().contains(digest@),
    {
        let mut index: usize = 0;
        while index < self.digests.len()
            invariant
                index <= self.digests@.len(),
                forall|i: int| 0 <= i < index ==> #[trigger] self.digest_views()[i] != digest@,
            decreases self.digests.len() - index,
        {
            if str_eq(self.digests[index].as_str(), digest) {
                assert(self.digest_views()[index as int] == digest@);
                return true;
            }
            index = index + 1;
        }
        false
    }

    fn remember(&mut self, identity: FileId, digest: &str)
        requires
            old(self).wf(),
            !old(self).identities@.contains(identity),
            !old(self).digest_views().contains(digest@),
        ensures
            final(self).identities@ == old(self).identities@.push(identity),
            final(self).digest_views() == old(self).digest_views().push(digest@),
            final(self).entries == old(self).entries,
            final(self).fixtures == old(self).fixtures,
            final(self).total_bytes == old(self).total_bytes,
            final(self).total_pixels == old(self).total_pixels,
            final(self).wf(),
    {
        self.identities.push(identity);
        self.digests.push(digest.to_owned());
        proof {
            let before = old(self).digest_views();
            assert(self.digest_views() =~= before.push(digest@));
            assert forall|i: int, j: int|
                0 <= i < self.digest_views().len() && 0 <= j < self.digest_views().len() && i
                    != j implies self.digest_views()[i] != self.digest_views()[j] by {
                if i < before.len() && j < before.len() {
                    assert(before[i] != before[j]);
                } else if i < before.len() {
                    assert(before.contains(before[i]));
                } else if j < before.len() {
                    assert(before.contains(before[j]));
                }
            }
            let earlier = old(self).identities@;
            assert forall|i: int, j: int|
                0 <= i < self.identities@.len() && 0 <= j < self.identities@.len() && i
                    != j implies self.identities@[i] != self.identities@[j] by {
                if i < earlier.len() && j < earlier.len() {
                    assert(earlier[i] != earlier[j]);
                } else if i < earlier.len() {
                    assert(earlier.contains(earlier[i]));
                } else if j < earlier.len() {
                    assert(earlier.contains(earlier[j]));
                }
            }
        }
    }

    /// Why a fixture is rejected, given what its header says of its dimensions.
    pub open spec fn fixture_error(&self, blob: SecureBlob, header: Option<(u32, u32)>) -> Option<
        CorpusError,
    > {
        if self.identities@.contains(blob.identity) || self.digest_views().contains(blob.digest@) {
            Some(CorpusError::DuplicateFixtureFileOrContent)
        } else if self.total_bytes + blob.bytes@.len() > MAX_TOTAL_FIXTURE_BYTES {
            Some(CorpusError::FixtureTotalByteLimit)
        } else {
            match fixture_dimensions(header) {
                Err(error) => Some(error),
                Ok((width, height)) => if self.total_pixels + width * height > MAX_TOTAL_PIXELS {
                    Some(CorpusError::TotalPixelLimit)
                } else {
                    None
                },
            }
        }
    }

    /// The pin with one more fixture.
    pub open spec fn with_fixture(
        &self,
        after: CorpusPin,
        blob: SecureBlob,
        header: Option<(u32, u32)>,
    ) -> bool {
        let at = self.fixtures@.len() as int;
        &&& after.wf()
        &&& after.entries == self.entries
        &&& after.identities@ == self.identities@.push(blob.identity)
        &&& after.digest_views() == self.digest_views().push(blob.digest@)
        &&& after.fixtures@.len() == at + 1
        &&& after.fixtures@.drop_last() == self.fixtures@
        &&& after.fixtures@.last().index == at
        &&& after.fixtures@.last().class == self.entries@[at].class
        &&& after.fixtures@.last().digest@ == blob.digest@
        &&& after.fixtures@.last().encoded@ == blob.bytes@
        &&& after.total_bytes == self.total_bytes + blob.bytes@.len()
        &&& header matches Some((width, height)) && after.total_pixels == self.total_pixels + width
            * height
    }

    /// Accepts what was read from the next fixture's path, given what its header
    /// says of its dimensions.
    pub fn add_measured_fixture(&mut self, blob: SecureBlob, header: Option<(u32, u32)>) -> (result:
        Result<(), CorpusError>)
        requires
            old(self).wf(),
            blob.wf(),
            old(self).fixtures@.len() < old(self).entries@.len(),
            old(self).path_error() is None,
            old(self).digests@.len() == 1 + old(self).fixtures@.len(),
        ensures
            match result {
                Ok(_) => old(self).fixture_error(blob, header) is None && old(self).with_fixture(
                    *final(self),
                    blob,
                    header,
                ),
                Err(error) => old(self).fixture_error(blob, header) == Some(error) && *final(self)
                    == *old(self),
            },
    {
        if self.has_identity(blob.identity) || self.has_digest(blob.digest.as_str()) {
            return Err(CorpusError::DuplicateFixtureFileOrContent);
        }
        if blob.bytes.len() as u64 > MAX_TOTAL_FIXTURE_BYTES - self.total_bytes {
            return Err(CorpusError::FixtureTotalByteLimit);
        }
        let (width, height): (u32, u32) = check_dimensions(header)?;
        assert(width as int * height as int <= u32::MAX * u32::MAX) by (nonlinear_arith)
            requires
                0 <= width <= u32::MAX,
                0 <= height <= u32::MAX,
        ;
        let pixels: u64 = width as u64 * height as u64;
        if pixels > MAX_TOTAL_PIXELS - self.total_pixels {
            return Err(CorpusError::TotalPixelLimit);
        }
        let ghost before = *self;
        let index: usize = self.fixtures.len();
        let size: u64 = blob.bytes.len() as u64;
        let class: FixtureClass = self.entries[index].class;
        self.remember(blob.identity, blob.digest.as_str());
        let mut taken = blob;
        let digest = take_text(&mut taken.digest);
        let encoded = take_bytes(&mut taken.bytes);
        let fixture = PinnedFixture { index, class, digest, encoded };
        self.fixtures.push(fixture);
        self.total_bytes = self.total_bytes + size;
        self.total_pixels = self.total_pixels + pixels;
        proof {
            assert(self.fixtures@.drop_last() =~= before.fixtures@);
            assert forall|i: int| 0 <= i < self.fixtures@.len() implies (
            #[trigger] self.fixtures@[i]).index == i && self.fixtures@[i].digest@ == digest_text(
                self.fixtures@[i].encoded@,
            ) by {
                if i < before.fixtures@.len() {
                    assert(self.fixtures@[i] == before.fixtures@[i]);
                }
            }
            assert forall|i: int| 0 <= i < self.fixtures@.len() implies (
            #[trigger] self.fixtures@[i]).digest@ == self.digest_views()[i + 1]
                && self.fixtures@[i].class == self.entries@[i].class by {
                if i < before.fixtures@.len() {
                    assert(self.fixtures@[i] == before.fixtures@[i]);
                    assert(before.digest_views()[i + 1] == self.digest_views()[i + 1]);
                }
            }
            assert(self.total_bytes == encoded_bytes(self.fixtures@));
            assert(self.digest_views().len() == before.digest_views().len() + 1);
            assert(fixtures_are_pinned(self.fixtures@));
            assert(self.digest_views().no_duplicates());
            assert(self.identities@.no_duplicates());
            assert(self.wf());
            assert(before.with_fixture(*self, blob, header));
        }
        Ok(())
    }

    /// Accepts what was read from the next fixture's path.
    pub fn add_fixture(&mut self, blob: SecureBlob) -> (result: Result<(), CorpusError>)
        requires
            old(self).wf(),
            blob.wf(),
            old(self).fixtures@.len() < old(self).entries@.len(),
            old(self).path_error() is None,
            old(self).digests@.len() == 1 + old(self).fixtures@.len(),
        ensures
            match result {
                Ok(_) => old(self).fixture_error(blob, image_header(blob.bytes@)) is None && old(
                    self,
                ).with_fixture(*final(self), blob, image_header(blob.bytes@)),
                Err(error) => old(self).fixture_error(blob, image_header(blob.bytes@)) == Some(
                    error,
                ) && *final(self) == *old(self),
            },
    {
        let header = read_image_header(blob.bytes.as_slice());
        self.add_measured_fixture(blob, header)
    }

    /// Why the two networks are rejected: they must be within their limit
    /// together and differ from each other and from everything else.
    pub open spec fn models_error(&self, detector: SecureBlob, recognizer: SecureBlob) -> Option<
        CorpusError,
    > {
        if detector.bytes@.len() + recognizer.bytes@.len() > MAX_TOTAL_ONNX_BYTES {
            Some(CorpusError::OnnxTotalByteLimit)
        } else if detector.identity == recognizer.identity || detector.digest@
            == recognizer.digest@ {
            Some(CorpusError::DuplicateOnnxModels)
        } else if self.identities@.contains(detector.identity) || self.identities@.contains(
            recognizer.identity,
        ) {
            Some(CorpusError::InputFileAlias)
        } else if self.digest_views().contains(detector.digest@) || self.digest_views().contains(
            recognizer.digest@,
        ) {
            Some(CorpusError::InputContentAlias)
        } else {
            None
        }
    }

    /// Accepts the two networks.
    pub fn add_models(&mut self, detector: &SecureBlob, recognizer: &SecureBlob) -> (result: Result<
        (),
        CorpusError,
    >)
        requires
            old(self).wf(),
        ensures
            final(self).wf(),
            final(self).entries == old(self).entries,
            final(self).fixtures == old(self).fixtures,
            final(self).total_bytes == old(self).total_bytes,
            final(self).total_pixels == old(self).total_pixels,
            match result {
                Ok(_) => {
                    &&& old(self).models_error(*detector, *recognizer) is None
                    &&& final(self).identities@ == old(self).identities@.push(
                        detector.identity,
                    ).push(recognizer.identity)
                    &&& final(self).digest_views() == old(self).digest_views().push(
                        detector.digest@,
                    ).push(recognizer.digest@)
                },
                Err(error) => old(self).models_error(*detector, *recognizer) == Some(error)
                    && *final(self) == *old(self),
            },
    {
        let detector_size: usize = detector.bytes.len();
        let recognizer_size: usize = recognizer.bytes.len();
        if detector_size as u64 > MAX_TOTAL_ONNX_BYTES || recognizer_size as u64
            > MAX_TOTAL_ONNX_BYTES - detector_size as u64 {
            return Err(CorpusError::OnnxTotalByteLimit);
        }
        if detector.identity == recognizer.identity || str_eq(
            detector.digest.as_str(),
            recognizer.digest.as_str(),
        ) {
            return Err(CorpusError::DuplicateOnnxModels);
        }
        if self.has_identity(detector.identity) || self.has_identity(recognizer.identity) {
            return Err(CorpusError::InputFileAlias);
        }
        if self.has_digest(detector.digest.as_str()) || self.has_digest(
            recognizer.digest.as_str(),
        ) {
            return Err(CorpusError::InputContentAlias);
        }
        self.remember(detector.identity, detector.digest.as_str());
        proof {
            let identities = old(self).identities@.push(detector.identity);
            if self.identities@.contains(recognizer.identity) {
                let i = identities.index_of(recognizer.identity);
                assert(identities[i] == recognizer.identity);
                assert(i < old(self).identities@.len() ==> old(self).identities@.contains(
                    old(self).identities@[i],
                ));
            }
            let digests = old(self).digest_views().push(detector.digest@);
            if self.digest_views().contains(recognizer.digest@) {
                let i = digests.index_of(recognizer.digest@);
                assert(digests[i] == recognizer.digest@);
                assert(i < old(self).digest_views().len() ==> old(self).digest_views().contains(
                    old(self).digest_views()[i],
                ));
            }
        }
        self.remember(recognizer.identity, recognizer.digest.as_str());
        Ok(())
    }

    /// Why the enrolled models are rejected before they are parsed.
    pub open spec fn enrolled_error(&self, blob: SecureBlob) -> Option<CorpusError> {
        if self.identities@.contains(blob.identity) {
            Some(CorpusError::DuplicateSensitiveFile)
        } else if self.digest_views().contains(blob.digest@) {
            Some(CorpusError::DuplicateSensitiveContent)
        } else {
            None
        }
    }

    /// Accepts the enrolled models. `unit` tells whether the values of an
    /// embedding have the length of one.
    pub fn add_enrolled<F: Fn(&[u32]) -> bool>(&mut self, blob: &SecureBlob, unit: &F) -> (result:
        Result<(), CorpusError>)
        requires
            old(self).wf(),
            forall|values: &[u32]| #[trigger] call_requires(*unit, (values,)),
        ensures
            old(self).enrolled_error(*blob) matches Some(error) ==> result == Err::<
                (),
                CorpusError,
            >(error),
            old(self).enrolled_error(*blob) is None ==> forall|
                decision: spec_fn(Seq<u32>) -> bool,
            | #[trigger]
                decides(*unit, decision) ==> result == (match file_of(blob.bytes@, decision) {
                    Ok(_) => Ok(()),
                    Err(error) => Err(CorpusError::EnrolledModel(error)),
                }),
            final(self).wf(),
            final(self).entries == old(self).entries,
            final(self).fixtures == old(self).fixtures,
            final(self).total_bytes == old(self).total_bytes,
            final(self).total_pixels == old(self).total_pixels,
            old(self).enrolled_error(*blob) is Some ==> *final(self) == *old(self),
            old(self).enrolled_error(*blob) is None ==> final(self).identities@ == old(
                self,
            ).identities@.push(blob.identity) && final(self).digest_views() == old(
                self,
            ).digest_views().push(blob.digest@),
    {
        if self.has_identity(blob.identity) {
            return Err(CorpusError::DuplicateSensitiveFile);
        }
        if self.has_digest(blob.digest.as_str()) {
            return Err(CorpusError::DuplicateSensitiveContent);
        }
        self.remember(blob.identity, blob.digest.as_str());
        let parsed = parse_and_validate_enrolled_model(blob.bytes.as_slice(), unit);
        assert(forall|decision: spec_fn(Seq<u32>) -> bool| #[trigger]
            decides(*unit, decision) ==> parse_is(parsed, file_of(blob.bytes@, decision)));
        match parsed {
            Ok(_) => Ok(()),
            Err(error) => Err(CorpusError::EnrolledModel(error)),
        }
    }

    /// The inputs that were accepted behind the fixtures are these: the two
    /// networks, and then the enrolled models where there are any.
    pub open spec fn has_accepted(
        &self,
        detector: SecureBlob,
        recognizer: SecureBlob,
        enrolled: Option<SecureBlob>,
    ) -> bool {
        let behind: int = self.fixtures@.len() + 1int;
        &&& detector.wf() && recognizer.wf()
        &&& self.identities@.len() == self.digests@.len()
        &&& self.digests@.len() == behind + (if enrolled is Some {
            3int
        } else {
            2
        })
        &&& self.identities@[behind] == detector.identity
        &&& self.digest_views()[behind] == detector.digest@
        &&& self.identities@[behind + 1] == recognizer.identity
        &&& self.digest_views()[behind + 1] == recognizer.digest@
        &&& enrolled matches Some(blob) ==> blob.wf() && self.identities@[behind + 2]
            == blob.identity && self.digest_views()[behind + 2] == blob.digest@
    }

    /// Completes the corpus, once all fixtures and both networks have been
    /// accepted: what it holds is what was accepted, and no content occurs twice.
    pub fn complete(
        self,
        detector: SecureBlob,
        recognizer: SecureBlob,
        enrolled: Option<SecureBlob>,
    ) -> (corpus: PinnedCorpus)
        requires
            self.wf(),
            self.fixtures@.len() == self.entries@.len(),
            self.has_accepted(detector, recognizer, enrolled),
        ensures
            corpus_contents(corpus).no_duplicates(),
            corpus.detector_digest == detector.digest,
            corpus.detector_model == detector.bytes,
            corpus.recognizer_digest == recognizer.digest,
            corpus.recognizer_model == recognizer.bytes,
            corpus.enrolled_model == (match enrolled {
                Some(blob) => Some(blob.bytes),
                None => None,
            }),
            corpus.fixtures == self.fixtures,
    {
        let ghost pin = self;
        let ghost given = (detector, recognizer, enrolled);
        let mut detector = detector;
        let mut recognizer = recognizer;
        let enrolled_model = match enrolled {
            Some(mut blob) => Some(take_bytes(&mut blob.bytes)),
            None => None,
        };
        let corpus = PinnedCorpus {
            detector_digest: take_text(&mut detector.digest),
            detector_model: take_bytes(&mut detector.bytes),
            recognizer_digest: take_text(&mut recognizer.digest),
            recognizer_model: take_bytes(&mut recognizer.bytes),
            enrolled_model,
            fixtures: self.fixtures,
        };
        proof {
            accepted_contents_differ(pin, given.0, given.1, given.2, corpus);
        }
        corpus
    }
}

/// The contents of a corpus: its fixtures, its networks, and its enrolled models
/// where there are any.
pub open spec fn corpus_contents(corpus: PinnedCorpus) -> Seq<Seq<u8>> {
    let fixtures = corpus.fixtures@.map_values(|fixture: PinnedFixture| fixture.encoded@);
    let networks = seq![corpus.detector_model@, corpus.recognizer_model@];
    fixtures + networks + (match corpus.enrolled_model {
        Some(model) => seq![model@],
        None => seq![],
    })
}

proof fn accepted_contents_differ(
    pin: CorpusPin,
    detector: SecureBlob,
    recognizer: SecureBlob,
    enrolled: Option<SecureBlob>,
    corpus: PinnedCorpus,
)
    requires
        pin.wf(),
        pin.has_accepted(detector, recognizer, enrolled),
        corpus.detector_model == detector.bytes,
        corpus.recognizer_model == recognizer.bytes,
        corpus.enrolled_model == (match enrolled {
            Some(blob) => Some(blob.bytes),
            None => None,
        }),
        corpus.fixtures == pin.fixtures,
    ensures
        corpus_contents(corpus).no_duplicates(),
{
    let contents = corpus_contents(corpus);
    let digests = pin.digest_views();
    let count = pin.fixtures@.len() as int;
    assert(contents.len() + 1 == digests.len());
    assert forall|i: int| 0 <= i < contents.len() implies digest_text(#[trigger] contents[i])
        == digests[i + 1] by {
        if i < count {
            assert(contents[i] == pin.fixtures@[i].encoded@);
        } else if i == count {
            assert(contents[i] == detector.bytes@);
        } else if i == count + 1 {
            assert(contents[i] == recognizer.bytes@);
        }
    }
    assert forall|i: int, j: int|
        0 <= i < contents.len() && 0 <= j < contents.len() && i != j implies contents[i]
        != contents[j] by {
        assert(digests[i + 1] != digests[j + 1]);
    }
}

/// However a corpus was put together, its fixtures are numbered in order, each
/// carries the digest of its bytes, no two have the same content, and together
/// they keep within the byte limit.
pub proof fn pinned_fixtures_are_distinct_and_bounded(pin: CorpusPin)
    requires
        pin.wf(),
    ensures
        pin.fixtures@.len() <= MAX_FIXTURES,
        encoded_bytes(pin.fixtures@) <= MAX_TOTAL_FIXTURE_BYTES,
        fixtures_are_pinned(pin.fixtures@),
        forall|i: int, j: int|
            0 <= i < j < pin.fixtures@.len() ==> (#[trigger] pin.fixtures@[i]).digest@ != (
            #[trigger] pin.fixtures@[j]).digest@ && pin.fixtures@[i].encoded@
                != pin.fixtures@[j].encoded@,
{
    assert forall|i: int, j: int| 0 <= i < j < pin.fixtures@.len() implies (
    #[trigger] pin.fixtures@[i]).digest@ != (#[trigger] pin.fixtures@[j]).digest@
        && pin.fixtures@[i].encoded@ != pin.fixtures@[j].encoded@ by {
        assert(pin.digest_views()[i + 1] != pin.digest_views()[j + 1]);
    }
}

/// A class as a byte.
pub open spec fn class_byte(class: FixtureClass) -> u8 {
    match class {
        FixtureClass::Positive => 1,
        FixtureClass::Negative => 2,
    }
}

/// A fixture as bytes: number, class, digest and content.
pub open spec fn fixture_encoding(fixture: PinnedFixture) -> Seq<u8> {
    le_bytes(fixture.index as nat, 8) + seq![class_byte(fixture.class)] + measured(
        encode_utf8(fixture.digest@),
    ) + measured(fixture.encoded@)
}

/// Fixtures as bytes, one behind the other.
pub open spec fn fixtures_encoding(fixtures: Seq<PinnedFixture>) -> Seq<u8>
    decreases fixtures.len(),
{
    if fixtures.len() == 0 {
        Seq::empty()
    } else {
        fixtures_encoding(fixtures.drop_last()) + fixture_encoding(fixtures.last())
    }
}

/// The enrolled models as bytes: a mark, and the file behind its length.
pub open spec fn enrolled_encoding(enrolled: Option<Vec<u8>>) -> Seq<u8> {
    match enrolled {
        Some(model) => seq![1u8] + measured(model@),
        None => seq![0u8],
    }
}

/// Everything that the corpus digest covers.
pub open spec fn corpus_encoding(corpus: PinnedCorpus) -> Seq<u8> {
    measured(encode_utf8(corpus.detector_digest@)) + measured(corpus.detector_model@) + measured(
        encode_utf8(corpus.recognizer_digest@),
    ) + measured(corpus.recognizer_model@) + enrolled_encoding(corpus.enrolled_model) + le_bytes(
        corpus.fixtures@.len(),
        8,
    ) + fixtures_encoding(corpus.fixtures@)
}

fn absorb_number(hasher: &mut sha2::Sha256, value: u64)
    ensures
        absorbed(*final(hasher)) == absorbed(*old(hasher)) + le_bytes(value as nat, 8),
{
    let mut bytes: Vec<u8> = Vec::new();
    push_le(&mut bytes, value, 8);
    assert(bytes@ =~= le_bytes(value as nat, 8));
    absorb(hasher, bytes.as_slice());
}

fn absorb_byte(hasher: &mut sha2::Sha256, byte: u8)
    ensures
        absorbed(*final(hasher)) == absorbed(*old(hasher)) + seq![byte],
{
    let mut bytes: Vec<u8> = Vec::new();
    bytes.push(byte);
    assert(bytes@ =~= seq![byte]);
    absorb(hasher, bytes.as_slice());
}

fn absorb_measured(hasher: &mut sha2::Sha256, bytes: &[u8])
    ensures
        absorbed(*final(hasher)) == absorbed(*old(hasher)) + measured(bytes@),
{
    let ghost before = absorbed(*hasher);
    absorb_number(hasher, bytes.len() as u64);
    absorb(hasher, bytes);
    assert(absorbed(*hasher) =~= before + measured(bytes@));
}

fn absorb_fixture(hasher: &mut sha2::Sha256, fixture: &PinnedFixture)
    ensures
        absorbed(*final(hasher)) == absorbed(*old(hasher)) + fixture_encoding(*fixture),
{
    let ghost before = absorbed(*hasher);
    absorb_number(hasher, fixture.index as u64);
    let class: u8 = match fixture.class {
        FixtureClass::Positive => 1,
        FixtureClass::Negative => 2,
    };
    absorb_byte(hasher, class);
    absorb_measured(hasher, fixture.digest.as_str().as_bytes());
    absorb_measured(hasher, fixture.encoded.as_slice());
    assert(absorbed(*hasher) =~= before + fixture_encoding(*fixture));
}

/// The digest of all inputs of a run.
pub fn corpus_digest(corpus: &PinnedCorpus) -> (digest: String)
    ensures
        digest@ == digest_text(corpus_encoding(*corpus)),
        encode_utf8(digest@).len() == 64,
{
    let mut hasher = new_hasher();
    absorb_measured(&mut hasher, corpus.detector_digest.as_str().as_bytes());
    absorb_measured(&mut hasher, corpus.detector_model.as_slice());
    absorb_measured(&mut hasher, corpus.recognizer_digest.as_str().as_bytes());
    absorb_measured(&mut hasher, corpus.recognizer_model.as_slice());
    let ghost networks = absorbed(hasher);
    match &corpus.enrolled_model {
        Some(model) => {
            absorb_byte(&mut hasher, 1);
            absorb_measured(&mut hasher, model.as_slice());
        },
        None => {
            absorb_byte(&mut hasher, 0);
        },
    }
    assert(absorbed(hasher) =~= networks + enrolled_encoding(corpus.enrolled_model));
    absorb_number(&mut hasher, corpus.fixtures.len() as u64);
    let ghost head = absorbed(hasher);
    let mut index: usize = 0;
    assert(head + fixtures_encoding(corpus.fixtures@.take(0)) =~= head);
    while index < corpus.fixtures.len()
        invariant
            index <= corpus.fixtures@.len(),
            absorbed(hasher) == head + fixtures_encoding(corpus.fixtures@.take(index as int)),
        decreases corpus.fixtures.len() - index,
    {
        let ghost done = corpus.fixtures@.take(index as int);
        let ghost longer = corpus.fixtures@.take(index + 1);
        absorb_fixture(&mut hasher, &corpus.fixtures[index]);
        index = index + 1;
        assert(longer.drop_last() =~= done);
        assert(absorbed(hasher) =~= head + fixtures_encoding(longer));
    }
    assert(corpus.fixtures@.take(index as int) =~= corpus.fixtures@);
    assert(absorbed(hasher) =~= corpus_encoding(*corpus));
    let digest = finish(hasher);
    proof {
        hex_texts_are_ascii(digest@);
    }
    hex_encode(digest.as_slice())
}

/// Whether two digests are the same, and digests at all.
pub fn verify_corpus_digest(expected: &str, actual: &str) -> (matches: bool)
    ensures
        matches == (encode_utf8(expected@).len() == 64 && expected@ == actual@),
{
    expected.as_bytes().len() == 64 && actual.as_bytes().len() == 64 && str_eq(expected, actual)
}

proof fn fixture_encodings_agree(
    left: PinnedFixture,
    left_rest: Seq<u8>,
    right: PinnedFixture,
    right_rest: Seq<u8>,
)
    requires
        left.encoded@.len() < byte_range(8),
        right.encoded@.len() < byte_range(8),
        encode_utf8(left.digest@).len() < byte_range(8),
        encode_utf8(right.digest@).len() < byte_range(8),
        left.index < byte_range(8),
        right.index < byte_range(8),
        fixture_encoding(left) + left_rest == fixture_encoding(right) + right_rest,
    ensures
        left.index == right.index,
        left.class == right.class,
        left.digest@ == right.digest@,
        left.encoded@ == right.encoded@,
        left_rest == right_rest,
{
    let left_digest = encode_utf8(left.digest@);
    let right_digest = encode_utf8(right.digest@);
    numbers_round_trip(left.index as nat, 8);
    numbers_round_trip(right.index as nat, 8);
    let a = seq![class_byte(left.class)] + (measured(left_digest) + (measured(left.encoded@)
        + left_rest));
    let b = seq![class_byte(right.class)] + (measured(right_digest) + (measured(right.encoded@)
        + right_rest));
    assert(fixture_encoding(left) + left_rest =~= le_bytes(left.index as nat, 8) + a);
    assert(fixture_encoding(right) + right_rest =~= le_bytes(right.index as nat, 8) + b);
    equal_parts_agree(le_bytes(left.index as nat, 8), a, le_bytes(right.index as nat, 8), b);
    equal_parts_agree(
        seq![class_byte(left.class)],
        measured(left_digest) + (measured(left.encoded@) + left_rest),
        seq![class_byte(right.class)],
        measured(right_digest) + (measured(right.encoded@) + right_rest),
    );
    assert(seq![class_byte(left.class)][0] == seq![class_byte(right.class)][0]);
    measured_parts_agree(
        left_digest,
        measured(left.encoded@) + left_rest,
        right_digest,
        measured(right.encoded@) + right_rest,
    );
    crate::text::encoding_is_injective(left.digest@, right.digest@);
    measured_parts_agree(left.encoded@, left_rest, right.encoded@, right_rest);
}

/// What fits the encoding: every length and number fits eight bytes.
pub open spec fn fits(corpus: PinnedCorpus) -> bool {
    &&& encode_utf8(corpus.detector_digest@).len() < byte_range(8)
    &&& corpus.detector_model@.len() < byte_range(8)
    &&& encode_utf8(corpus.recognizer_digest@).len() < byte_range(8)
    &&& corpus.recognizer_model@.len() < byte_range(8)
    &&& corpus.enrolled_model matches Some(model) ==> model@.len() < byte_range(8)
    &&& corpus.fixtures@.len() < byte_range(8)
    &&& forall|i: int|
        0 <= i < corpus.fixtures@.len() ==> fixture_fits(#[trigger] corpus.fixtures@[i])
}

pub open spec fn fixture_fits(fixture: PinnedFixture) -> bool {
    fixture.encoded@.len() < byte_range(8) && encode_utf8(fixture.digest@).len() < byte_range(8)
        && fixture.index < byte_range(8)
}

/// Two fixtures hold the same.
pub open spec fn same_fixture(left: PinnedFixture, right: PinnedFixture) -> bool {
    left.index == right.index && left.class == right.class && left.digest@ == right.digest@
        && left.encoded@ == right.encoded@
}

/// The fixtures from `at` on as bytes.
spec fn encoding_from(fixtures: Seq<PinnedFixture>, at: int) -> Seq<u8>
    decreases fixtures.len() - at,
{
    if at < 0 || at >= fixtures.len() {
        Seq::empty()
    } else {
        fixture_encoding(fixtures[at]) + encoding_from(fixtures, at + 1)
    }
}

proof fn encodings_compose(fixtures: Seq<PinnedFixture>, at: int)
    requires
        0 <= at <= fixtures.len(),
    ensures
        fixtures_encoding(fixtures) == fixtures_encoding(fixtures.take(at)) + encoding_from(
            fixtures,
            at,
        ),
    decreases fixtures.len() - at,
{
    if at == fixtures.len() {
        assert(fixtures.take(at) =~= fixtures);
        assert(fixtures_encoding(fixtures) + Seq::<u8>::empty() =~= fixtures_encoding(fixtures));
    } else {
        encodings_compose(fixtures, at + 1);
        let longer = fixtures.take(at + 1);
        assert(longer.drop_last() =~= fixtures.take(at));
        assert(longer.last() == fixtures[at]);
        assert(fixtures_encoding(longer) + encoding_from(fixtures, at + 1) =~= fixtures_encoding(
            fixtures.take(at),
        ) + encoding_from(fixtures, at));
    }
}

proof fn fixture_lists_agree(left: Seq<PinnedFixture>, right: Seq<PinnedFixture>, at: int)
    requires
        0 <= at <= left.len(),
        left.len() == right.len(),
        forall|i: int| 0 <= i < left.len() ==> fixture_fits(#[trigger] left[i]),
        forall|i: int| 0 <= i < right.len() ==> fixture_fits(#[trigger] right[i]),
        encoding_from(left, at) == encoding_from(right, at),
    ensures
        forall|i: int| at <= i < left.len() ==> same_fixture(#[trigger] left[i], right[i]),
    decreases left.len() - at,
{
    if at < left.len() {
        fixture_encodings_agree(
            left[at],
            encoding_from(left, at + 1),
            right[at],
            encoding_from(right, at + 1),
        );
        fixture_lists_agree(left, right, at + 1);
    }
}

/// The fixtures as bytes, behind their number.
spec fn fixtures_tail(fixtures: Seq<PinnedFixture>) -> Seq<u8> {
    le_bytes(fixtures.len(), 8) + fixtures_encoding(fixtures)
}

spec fn after_networks(corpus: PinnedCorpus) -> Seq<u8> {
    enrolled_encoding(corpus.enrolled_model) + fixtures_tail(corpus.fixtures@)
}

spec fn after_recognizer_digest(corpus: PinnedCorpus) -> Seq<u8> {
    measured(corpus.recognizer_model@) + after_networks(corpus)
}

spec fn after_detector(corpus: PinnedCorpus) -> Seq<u8> {
    measured(encode_utf8(corpus.recognizer_digest@)) + after_recognizer_digest(corpus)
}

spec fn after_detector_digest(corpus: PinnedCorpus) -> Seq<u8> {
    measured(corpus.detector_model@) + after_detector(corpus)
}

proof fn encoding_splits(corpus: PinnedCorpus)
    ensures
        corpus_encoding(corpus) == measured(encode_utf8(corpus.detector_digest@))
            + after_detector_digest(corpus),
{
    assert(corpus_encoding(corpus) =~= measured(encode_utf8(corpus.detector_digest@))
        + after_detector_digest(corpus));
}

proof fn enrolled_encodings_agree(
    left: Option<Vec<u8>>,
    left_rest: Seq<u8>,
    right: Option<Vec<u8>>,
    right_rest: Seq<u8>,
)
    requires
        left matches Some(model) ==> model@.len() < byte_range(8),
        right matches Some(model) ==> model@.len() < byte_range(8),
        enrolled_encoding(left) + left_rest == enrolled_encoding(right) + right_rest,
    ensures
        match (left, right) {
            (Some(a), Some(b)) => a@ == b@,
            (None, None) => true,
            _ => false,
        },
        left_rest == right_rest,
{
    let whole = enrolled_encoding(left) + left_rest;
    let other = enrolled_encoding(right) + right_rest;
    assert(whole[0] == enrolled_encoding(left)[0]);
    assert(other[0] == enrolled_encoding(right)[0]);
    match (left, right) {
        (Some(a), Some(b)) => {
            assert(whole =~= seq![1u8] + (measured(a@) + left_rest));
            assert(other =~= seq![1u8] + (measured(b@) + right_rest));
            equal_parts_agree(
                seq![1u8],
                measured(a@) + left_rest,
                seq![1u8],
                measured(b@) + right_rest,
            );
            measured_parts_agree(a@, left_rest, b@, right_rest);
        },
        (None, None) => {
            equal_parts_agree(seq![0u8], left_rest, seq![0u8], right_rest);
        },
        _ => {},
    }
}

proof fn fixture_tails_agree(left: Seq<PinnedFixture>, right: Seq<PinnedFixture>)
    requires
        left.len() < byte_range(8),
        right.len() < byte_range(8),
        forall|i: int| 0 <= i < left.len() ==> fixture_fits(#[trigger] left[i]),
        forall|i: int| 0 <= i < right.len() ==> fixture_fits(#[trigger] right[i]),
        fixtures_tail(left) == fixtures_tail(right),
    ensures
        left.len() == right.len(),
        forall|i: int| 0 <= i < left.len() ==> same_fixture(#[trigger] left[i], right[i]),
{
    numbers_round_trip(left.len(), 8);
    numbers_round_trip(right.len(), 8);
    equal_parts_agree(
        le_bytes(left.len(), 8),
        fixtures_encoding(left),
        le_bytes(right.len(), 8),
        fixtures_encoding(right),
    );
    encodings_compose(left, 0);
    encodings_compose(right, 0);
    assert(left.take(0) =~= Seq::empty());
    assert(right.take(0) =~= Seq::empty());
    assert(Seq::<u8>::empty() + encoding_from(left, 0) =~= encoding_from(left, 0));
    assert(Seq::<u8>::empty() + encoding_from(right, 0) =~= encoding_from(right, 0));
    fixture_lists_agree(left, right, 0);
}

/// The bytes that the corpus digest covers tell everything about a corpus: two
/// corpora with the same bytes hold the same networks, the same enrolled models
/// and the same fixtures.
pub proof fn corpus_encoding_is_complete(left: PinnedCorpus, right: PinnedCorpus)
    requires
        fits(left),
        fits(right),
        corpus_encoding(left) == corpus_encoding(right),
    ensures
        left.detector_digest@ == right.detector_digest@,
        left.detector_model@ == right.detector_model@,
        left.recognizer_digest@ == right.recognizer_digest@,
        left.recognizer_model@ == right.recognizer_model@,
        match (left.enrolled_model, right.enrolled_model) {
            (Some(a), Some(b)) => a@ == b@,
            (None, None) => true,
            _ => false,
        },
        left.fixtures@.len() == right.fixtures@.len(),
        forall|i: int|
            0 <= i < left.fixtures@.len() ==> same_fixture(
                #[trigger] left.fixtures@[i],
                right.fixtures@[i],
            ),
{
    encoding_splits(left);
    encoding_splits(right);
    measured_parts_agree(
        encode_utf8(left.detector_digest@),
        after_detector_digest(left),
        encode_utf8(right.detector_digest@),
        after_detector_digest(right),
    );
    crate::text::encoding_is_injective(left.detector_digest@, right.detector_digest@);
    measured_parts_agree(
        left.detector_model@,
        after_detector(left),
        right.detector_model@,
        after_detector(right),
    );
    measured_parts_agree(
        encode_utf8(left.recognizer_digest@),
        after_recognizer_digest(left),
        encode_utf8(right.recognizer_digest@),
        after_recognizer_digest(right),
    );
    crate::text::encoding_is_injective(left.recognizer_digest@, right.recognizer_digest@);
    measured_parts_agree(
        left.recognizer_model@,
        after_networks(left),
        right.recognizer_model@,
        after_networks(right),
    );
    enrolled_encodings_agree(
        left.enrolled_model,
        fixtures_tail(left.fixtures@),
        right.enrolled_model,
        fixtures_tail(right.fixtures@),
    );
    fixture_tails_agree(left.fixtures@, right.fixtures@);
}

/// A decoded picture: its width, its height and three bytes for each pixel.
pub struct Rgb {
    pub width: u32,
    pub height: u32,
    pub data: Seq<u8>,
}

/// The picture that an encoded image holds, decoded under limits.
pub uninterp spec fn rgb_picture(
    encoded: Seq<u8>,
    max_width: u32,
    max_height: u32,
    max_alloc: u64,
) -> Option<Rgb>;

/// A decoded picture, three bytes for each pixel.
#[derive(Debug)]
pub struct RgbImage {
    pub width: u32,
    pub height: u32,
    pub data: Vec<u8>,
}

impl RgbImage {
    /// Takes the content out of a picture that is no longer needed.
    pub fn zeroize(&mut self)
        ensures
            final(self).width == old(self).width,
            final(self).height == old(self).height,
            final(self).data@.len() == old(self).data@.len(),
            forall|i: int| 0 <= i < final(self).data@.len() ==> #[trigger] final(self).data@[i] == 0,
        opens_invariants none
        no_unwind
    {
        wipe_bytes_in_place(&mut self.data);
    }
}

impl Drop for RgbImage {
    /// A picture that goes out of use leaves nothing in memory.
    fn drop(&mut self)
        opens_invariants none
        no_unwind
    {
        self.zeroize();
    }
}

pub open spec fn rgb_view(image: Option<RgbImage>) -> Option<Rgb> {
    match image {
        Some(rgb) => Some(Rgb { width: rgb.width, height: rgb.height, data: rgb.data@ }),
        None => None,
    }
}

/// Decodes an encoded image to three bytes for each pixel.
///
/// Calls `image::ImageReader::decode` with the limits given and the format that
/// `image::guess_format` tells by the first bytes from a fixed table, and
/// `image::DynamicImage::to_rgb8` on what it returns. What was decoded is then
/// given up by `image::DynamicImage::into_bytes`, and these bytes, which are a copy
/// where samples are wider than a byte, are handed to `zeroize::Zeroize::zeroize`.
/// The result depends on the encoded bytes and the limits alone; there is none
/// where the image cannot be decoded within them. What the pixels are is not
/// stated, nor that the memory of what was decoded is overwritten.
#[verifier::external_body]
fn decode_rgb(encoded: &[u8], max_width: u32, max_height: u32, max_alloc: u64) -> (image: Option<
    RgbImage,
>)
    ensures
        rgb_view(image) == rgb_picture(encoded@, max_width, max_height, max_alloc),
{
    let format = image::guess_format(encoded).ok()?;
    let source = std::io::Cursor::new(encoded);
    let mut reader = image::ImageReader::with_format(source, format);
    let mut limits = image::Limits::default();
    limits.max_image_width = Some(max_width);
    limits.max_image_height = Some(max_height);
    limits.max_alloc = Some(max_alloc);
    reader.limits(limits);
    let decoded = reader.decode().ok()?;
    let rgb = decoded.to_rgb8();
    zeroize::Zeroize::zeroize(&mut decoded.into_bytes());
    Some(RgbImage { width: rgb.width(), height: rgb.height(), data: rgb.into_raw() })
}

/// The frame of a fixture, given what its header says and what was decoded: the
/// dimensions agree and are within the limit, and the first and third byte of
/// each pixel change places.
pub open spec fn fixture_frame(header: Option<(u32, u32)>, decoded: Option<Rgb>) -> Result<
    Rgb,
    CorpusError,
> {
    match fixture_dimensions(header) {
        Err(error) => Err(error),
        Ok((width, height)) => match decoded {
            None => Err(CorpusError::UnreadableImage),
            Some(rgb) => if rgb.width * rgb.height > MAX_PIXELS_PER_FIXTURE {
                Err(CorpusError::PixelLimit)
            } else if rgb.width != width || rgb.height != height {
                Err(CorpusError::DimensionMismatch)
            } else {
                Ok(
                    Rgb {
                        width,
                        height,
                        data: crate::mjpeg::swapped(rgb.data),
                    },
                )
            },
        },
    }
}

/// What came out of a decoding is a frame.
pub open spec fn frame_is(frame: Result<RgbImage, CorpusError>, wanted: Result<Rgb, CorpusError>) -> bool {
    match wanted {
        Err(error) => frame == Err::<RgbImage, CorpusError>(error),
        Ok(rgb) => frame matches Ok(image) && image.width == rgb.width && image.height == rgb.height
            && image.data@ == rgb.data,
    }
}

/// Makes a frame of what was decoded, given the dimensions in the header.
pub fn frame_of_decoded(header: Option<(u32, u32)>, decoded: Option<RgbImage>) -> (frame: Result<
    RgbImage,
    CorpusError,
>)
    ensures
        frame_is(frame, fixture_frame(header, rgb_view(decoded))),
{
    let (width, height): (u32, u32) = match check_dimensions(header) {
        Ok(dimensions) => dimensions,
        Err(error) => {
            return Err(error);
        },
    };
    let mut image: RgbImage = match decoded {
        Some(image) => image,
        None => {
            return Err(CorpusError::UnreadableImage);
        },
    };
    match validate_pixels(image.width, image.height) {
        Ok(()) => {},
        Err(error) => {
            return Err(error);
        },
    }
    if image.width != width || image.height != height {
        return Err(CorpusError::DimensionMismatch);
    }
    let mut data = take_bytes(&mut image.data);
    crate::mjpeg::rgb_to_bgr_in_place(data.as_mut_slice());
    Ok(RgbImage { width, height, data })
}

/// Decodes a fixture to a frame.
pub fn decode_fixture(encoded: &[u8]) -> (frame: Result<RgbImage, CorpusError>)
    ensures
        frame_is(
            frame,
            fixture_frame(
                image_header(encoded@),
                match image_header(encoded@) {
                    Some((width, height)) => rgb_picture(encoded@, width, height, 32000000),
                    None => None,
                },
            ),
        ),
{
    let header = read_image_header(encoded);
    let (width, height): (u32, u32) = match check_dimensions(header) {
        Ok(dimensions) => dimensions,
        Err(error) => {
            return Err(error);
        },
    };
    let decoded = decode_rgb(encoded, width, height, MAX_PIXELS_PER_FIXTURE * 4);
    frame_of_decoded(header, decoded)
}

/// Whether a fixture has no more faces than may be recorded.
pub fn check_face_count(count: usize) -> (result: Result<(), CorpusError>)
    ensures
        result == (if count > MAX_FACES_PER_FIXTURE {
            Err(CorpusError::FaceLimit)
        } else {
            Ok(())
        }),
{
    if count > MAX_FACES_PER_FIXTURE {
        return Err(CorpusError::FaceLimit);
    }
    Ok(())
}

impl PinnedCorpus {
    /// Takes the networks and the enrolled models out of a corpus.
    fn wipe_models(&mut self)
        ensures
            final(self).detector_digest@.len() == 0,
            final(self).detector_model@.len() == 0,
            final(self).recognizer_digest@.len() == 0,
            final(self).recognizer_model@.len() == 0,
            final(self).enrolled_model is None,
            final(self).fixtures == old(self).fixtures,
        opens_invariants none
        no_unwind
    {
        wipe_text(&mut self.detector_digest);
        wipe_bytes(&mut self.detector_model);
        wipe_text(&mut self.recognizer_digest);
        wipe_bytes(&mut self.recognizer_model);
        wipe_optional_bytes(&mut self.enrolled_model);
    }

    /// Takes the content out of a corpus that is no longer needed.
    pub fn zeroize(&mut self)
        ensures
            final(self).detector_digest@.len() == 0,
            final(self).detector_model@.len() == 0,
            final(self).recognizer_digest@.len() == 0,
            final(self).recognizer_model@.len() == 0,
            final(self).enrolled_model is None,
            final(self).fixtures@.len() == 0,
    {
        self.wipe_models();
        self.fixtures.clear();
    }
}

impl Drop for PinnedCorpus {
    /// A corpus that goes out of use leaves nothing in memory: each fixture does
    /// so for itself.
    fn drop(&mut self)
        opens_invariants none
        no_unwind
    {
        self.wipe_models();
    }
}


/// An input is read exactly where it is a regular file of the user, neither empty nor
/// longer than allowed, and, where it has to be private, one that its owner may read and
/// nobody else may touch or run.
pub proof fn inputs_are_the_users_own_files(
    metadata: InputMetadata,
    user: u32,
    max_bytes: usize,
    private: bool,
)
    ensures
        input_error(metadata, user, max_bytes, private) is None <==> {
            &&& metadata.is_file
            &&& metadata.uid == user
            &&& private ==> metadata.mode & 0o400 != 0 && metadata.mode & 0o7177 == 0
            &&& 1 <= metadata.stamp.length <= max_bytes
        },
        !metadata.is_file ==> input_error(metadata, user, max_bytes, private) == Some(
            InputError::NotRegular,
        ),
        metadata.is_file && metadata.uid != user ==> input_error(metadata, user, max_bytes, private)
            == Some(InputError::OwnerMismatch),
        metadata.is_file && metadata.uid == user && private && (metadata.mode & 0o400 == 0
            || metadata.mode & 0o7177 != 0) ==> input_error(metadata, user, max_bytes, private)
            == Some(InputError::ModeTooOpen),
{
    let mode = metadata.mode;
    assert((mode % 4096 == 0o400 || mode % 4096 == 0o600) <==> (mode & 0o400 != 0 && mode & 0o7177
        == 0)) by (bit_vector);
}

/// A directory is private exactly where it is the user's, who may do everything in it,
/// and nobody else may do anything.
pub proof fn private_directories_are_the_users(is_dir: bool, uid: u32, user: u32, mode: u32)
    ensures
        private_directory(is_dir, uid, user, mode) <==> is_dir && uid == user && mode & 0o700
            == 0o700 && mode & 0o7077 == 0,
{
    assert(mode % 4096 == 0o700 <==> (mode & 0o700 == 0o700 && mode & 0o7077 == 0)) by (bit_vector);
}

/// A picture is added exactly where neither its file nor its content was seen before, it
/// can be read, and neither it nor all together are too large.
pub proof fn fixtures_are_new_and_small(
    pin: CorpusPin,
    blob: SecureBlob,
    header: Option<(u32, u32)>,
)
    requires
        pin.wf(),
    ensures
        pin.fixture_error(blob, header) is None <==> {
            &&& forall|i: int|
                0 <= i < pin.identities@.len() ==> #[trigger] pin.identities@[i] != blob.identity
            &&& forall|i: int|
                0 <= i < pin.digests@.len() ==> (#[trigger] pin.digests@[i])@ != blob.digest@
            &&& pin.total_bytes + blob.bytes@.len() <= 33554432
            &&& header matches Some((width, height)) && width * height <= 8000000
                && pin.total_pixels + width * height <= 32000000
        },
{
    assert(pin.identities@.contains(blob.identity) <==> exists|i: int|
        0 <= i < pin.identities@.len() && #[trigger] pin.identities@[i] == blob.identity);
    if pin.digest_views().contains(blob.digest@) {
        let k = pin.digest_views().index_of(blob.digest@);
        assert(pin.digests@[k]@ == blob.digest@);
    }
    if exists|i: int| 0 <= i < pin.digests@.len() && (#[trigger] pin.digests@[i])@ == blob.digest@ {
        let k = choose|i: int|
            0 <= i < pin.digests@.len() && (#[trigger] pin.digests@[i])@ == blob.digest@;
        assert(pin.digest_views()[k] == blob.digest@);
    }
}

/// Two networks are added exactly where they are not too large together, differ in file
/// and content, and neither is one of the files and contents seen before. The enrolled
/// model is held to the latter as well.
pub proof fn networks_are_new(pin: CorpusPin, detector: SecureBlob, recognizer: SecureBlob)
    ensures
        pin.models_error(detector, recognizer) is None <==> {
            &&& detector.bytes@.len() + recognizer.bytes@.len() <= 268435456
            &&& detector.identity != recognizer.identity
            &&& detector.digest@ != recognizer.digest@
            &&& forall|i: int|
                0 <= i < pin.identities@.len() ==> #[trigger] pin.identities@[i]
                    != detector.identity && pin.identities@[i] != recognizer.identity
            &&& forall|i: int|
                0 <= i < pin.digests@.len() ==> (#[trigger] pin.digests@[i])@ != detector.digest@
                    && pin.digests@[i]@ != recognizer.digest@
        },
        pin.enrolled_error(detector) is None <==> {
            &&& forall|i: int|
                0 <= i < pin.identities@.len() ==> #[trigger] pin.identities@[i]
                    != detector.identity
            &&& forall|i: int|
                0 <= i < pin.digests@.len() ==> (#[trigger] pin.digests@[i])@ != detector.digest@
        },
{
    seen_digests_are_kept(pin, detector.digest@);
    seen_digests_are_kept(pin, recognizer.digest@);
    assert(pin.identities@.contains(detector.identity) <==> exists|i: int|
        0 <= i < pin.identities@.len() && #[trigger] pin.identities@[i] == detector.identity);
    assert(pin.identities@.contains(recognizer.identity) <==> exists|i: int|
        0 <= i < pin.identities@.len() && #[trigger] pin.identities@[i] == recognizer.identity);
}

proof fn seen_digests_are_kept(pin: CorpusPin, digest: Seq<char>)
    ensures
        pin.digest_views().contains(digest) <==> exists|i: int|
            0 <= i < pin.digests@.len() && (#[trigger] pin.digests@[i])@ == digest,
{
    if pin.digest_views().contains(digest) {
        let k = pin.digest_views().index_of(digest);
        assert(pin.digests@[k]@ == digest);
    }
    if exists|i: int| 0 <= i < pin.digests@.len() && (#[trigger] pin.digests@[i])@ == digest {
        let k = choose|i: int|
            0 <= i < pin.digests@.len() && (#[trigger] pin.digests@[i])@ == digest;
        assert(pin.digest_views()[k] == digest);
    }
}

/// A picture becomes a frame exactly where its header can be read and is not too large,
/// and what was decoded has the size that the header says; the frame then has the
/// picture's pixels, with red and blue in each other's place.
pub proof fn fixture_frames_are_the_pictures(
    header: Option<(u32, u32)>,
    decoded: Option<Rgb>,
    pixel: int,
)
    ensures
        fixture_frame(header, decoded) is Ok <==> {
            &&& decoded is Some
            &&& header matches Some((width, height)) && width * height <= 8000000
                && decoded->0.width == width && decoded->0.height == height
        },
        fixture_frame(header, decoded) matches Ok(frame) ==> {
            let picture = decoded->0;
            &&& frame.width == picture.width && frame.height == picture.height
            &&& frame.data.len() == picture.data.len()
            &&& 0 <= pixel && 3 * pixel + 3 <= picture.data.len() ==> frame.data[3 * pixel]
                == picture.data[3 * pixel + 2] && frame.data[3 * pixel + 1] == picture.data[3
                * pixel + 1] && frame.data[3 * pixel + 2] == picture.data[3 * pixel]
        },
        header is None ==> fixture_frame(header, decoded) == Err::<Rgb, CorpusError>(
            CorpusError::UnreadableImage,
        ),
        header matches Some((width, height)) ==> width * height > 8000000 ==> fixture_frame(
            header,
            decoded,
        ) == Err::<Rgb, CorpusError>(CorpusError::PixelLimit),
{
}

/// The next picture may be read exactly where its path stays within the directory and is
/// none of the earlier ones.
pub proof fn next_paths_are_contained_and_new(pin: CorpusPin)
    requires
        pin.wf(),
        pin.fixtures@.len() < pin.entries@.len(),
    ensures
        pin.path_error() is None <==> {
            let at = pin.fixtures@.len() as int;
            &&& contained_path(encode_utf8(pin.entries@[at].path@))
            &&& forall|i: int|
                0 <= i < at ==> (#[trigger] pin.entries@[i]).path@ != pin.entries@[at].path@
        },
        pin.fixtures@.len() <= 32 && encoded_bytes(pin.fixtures@) <= 33554432 && pin.total_pixels
            <= 32000000,
{
}


/// A picture that is added stands behind the others, as it was read and in the class of
/// its entry; the others stay, and what is counted grows by what it has.
pub proof fn added_fixtures_stand_behind_the_others(
    pin: CorpusPin,
    after: CorpusPin,
    blob: SecureBlob,
    width: u32,
    height: u32,
    i: int,
)
    requires
        pin.with_fixture(after, blob, Some((width, height))),
        0 <= i < pin.fixtures@.len(),
    ensures
        after.fixtures@.len() == pin.fixtures@.len() + 1,
        after.fixtures@[i] == pin.fixtures@[i],
        ({
            let added = after.fixtures@[pin.fixtures@.len() as int];
            &&& added.encoded@ == blob.bytes@ && added.digest@ == blob.digest@
            &&& added.index == pin.fixtures@.len()
            &&& added.class == pin.entries@[pin.fixtures@.len() as int].class
        }),
        after.total_bytes == pin.total_bytes + blob.bytes@.len(),
        after.total_pixels == pin.total_pixels + width * height,
        after.identities@.last() == blob.identity,
        after.entries == pin.entries,
{
    assert(after.fixtures@.drop_last()[i] == after.fixtures@[i]);
}


/// What is handed on of a picture has the size of the picture and all of its pixels, each
/// with red and blue in each other's place; and nothing is where there is an error.
pub proof fn handed_on_frames_are_the_pictures(
    frame: Result<RgbImage, CorpusError>,
    header: Option<(u32, u32)>,
    decoded: Option<RgbImage>,
    pixel: int,
)
    requires
        frame_is(frame, fixture_frame(header, rgb_view(decoded))),
    ensures
        frame is Ok <==> {
            &&& decoded is Some
            &&& header matches Some((width, height)) && width * height <= 8000000
                && decoded->0.width == width && decoded->0.height == height
        },
        frame matches Ok(image) ==> {
            let picture = decoded->0;
            &&& image.width == picture.width && image.height == picture.height
            &&& image.data@.len() == picture.data@.len()
            &&& 0 <= pixel && 3 * pixel + 3 <= picture.data@.len() ==> image.data@[3 * pixel]
                == picture.data@[3 * pixel + 2] && image.data@[3 * pixel + 1] == picture.data@[3
                * pixel + 1] && image.data@[3 * pixel + 2] == picture.data@[3 * pixel]
        },
{
    fixture_frames_are_the_pictures(header, rgb_view(decoded), pixel);
}

} // verus!
