//! Mode-aware startup loading of the cached-AEAD storage key.
//!
//! The service manager delivers the credential as a file in a directory of its
//! own. What is accepted of that delivery, and in which order it is examined,
//! is decided here; opening, reading and locking memory is the program's part.
use crate::paths::{is_strict_absolute, strict_absolute};
use crate::text::{str_eq, utf8_text};
use vstd::prelude::*;
use vstd::utf8::*;

verus! {

pub const MODE1_KEY_EPOCH: u64 = 1;

pub const MODE1_CREDENTIAL_NAME: &'static str = "howy.storage.mode1.epoch1";

pub const MODE1_CREDENTIAL_SOURCE_COMPANION_NAME: &'static str = "howy.storage.mode1.source";

pub const AES_256_KEY_BYTES: u64 = 32;

/// Permission bits `r-x------`.
pub const CREDENTIAL_DIRECTORY_MODE: u32 = 0o500;

/// Permission bits `r--------`.
pub const CREDENTIAL_FILE_MODE: u32 = 0o400;

/// How enrolled embeddings are stored.
#[derive(Clone, Copy, Debug, PartialEq, Eq, Structural)]
pub enum EmbeddingSecurityMode {
    Plaintext,
    AeadCached,
    AeadEphemeral,
    ReservedFuture,
}

impl EmbeddingSecurityMode {
    pub open spec fn number(self) -> u8 {
        match self {
            EmbeddingSecurityMode::Plaintext => 0,
            EmbeddingSecurityMode::AeadCached => 1,
            EmbeddingSecurityMode::AeadEphemeral => 2,
            EmbeddingSecurityMode::ReservedFuture => 3,
        }
    }

    /// The number that the mode is configured and reported by.
    pub fn code(self) -> (code: u8)
        ensures
            code == self.number(),
    {
        match self {
            EmbeddingSecurityMode::Plaintext => 0,
            EmbeddingSecurityMode::AeadCached => 1,
            EmbeddingSecurityMode::AeadEphemeral => 2,
            EmbeddingSecurityMode::ReservedFuture => 3,
        }
    }
}

/// Redacted startup error for the credential trust boundary.
#[derive(Clone, Copy, Debug, PartialEq, Eq, Structural)]
pub enum StartupKeyError {
    ContractMismatch,
    UnsupportedMode,
    CredentialUnavailable,
    CredentialRejected,
    GuardedMemoryUnavailable,
    UnsupportedCredentialDelivery,
}

impl StartupKeyError {
    pub open spec fn text(self) -> Seq<char> {
        match self {
            StartupKeyError::ContractMismatch => "mode 1 storage-key contract mismatch"@,
            StartupKeyError::UnsupportedMode =>
                "configured embedding storage mode is unavailable"@,
            StartupKeyError::CredentialUnavailable => "mode 1 storage credential is unavailable"@,
            StartupKeyError::CredentialRejected => "mode 1 storage credential was rejected"@,
            StartupKeyError::GuardedMemoryUnavailable =>
                "required mode 1 guarded memory could not be established"@,
            StartupKeyError::UnsupportedCredentialDelivery =>
                "mode 1 requires root-owned credential delivery without extended ACLs"@,
        }
    }

    pub fn message(self) -> (message: &'static str)
        ensures
            message@ == self.text(),
    {
        match self {
            StartupKeyError::ContractMismatch => "mode 1 storage-key contract mismatch",
            StartupKeyError::UnsupportedMode => "configured embedding storage mode is unavailable",
            StartupKeyError::CredentialUnavailable => "mode 1 storage credential is unavailable",
            StartupKeyError::CredentialRejected => "mode 1 storage credential was rejected",
            StartupKeyError::GuardedMemoryUnavailable =>
                "required mode 1 guarded memory could not be established",
            StartupKeyError::UnsupportedCredentialDelivery =>
                "mode 1 requires root-owned credential delivery without extended ACLs",
        }
    }
}

#[derive(Clone, Copy, Debug, PartialEq, Eq, Structural)]
pub struct DescriptorIdentity {
    pub device: u64,
    pub inode: u64,
}

#[derive(Clone, Copy, Debug, PartialEq, Eq, Structural)]
pub enum MetadataKind {
    Directory,
    Regular,
    Symlink,
    Other,
}

/// What is read of a delivered file or directory.
#[derive(Clone, Copy, Debug, PartialEq, Eq, Structural)]
pub struct CredentialMetadata {
    pub kind: MetadataKind,
    pub owner: u32,
    pub mode: u32,
    pub links: u64,
    pub length: u64,
    pub device: u64,
    pub inode: u64,
}

impl CredentialMetadata {
    pub open spec fn descriptor(self) -> DescriptorIdentity {
        DescriptorIdentity { device: self.device, inode: self.inode }
    }

    pub fn identity(self) -> (identity: DescriptorIdentity)
        ensures
            identity == self.descriptor(),
    {
        DescriptorIdentity { device: self.device, inode: self.inode }
    }

    /// The delivery directory as the service manager makes it.
    pub open spec fn is_delivery_directory(self, owner: u32) -> bool {
        self.kind == MetadataKind::Directory && self.owner == owner && self.mode
            == CREDENTIAL_DIRECTORY_MODE
    }

    /// A delivered file: regular, private, with no other name.
    pub open spec fn is_delivered_file(self, owner: u32) -> bool {
        self.kind == MetadataKind::Regular && self.owner == owner && self.mode
            == CREDENTIAL_FILE_MODE && self.links == 1
    }

    pub open spec fn is_key_file(self, owner: u32) -> bool {
        self.is_delivered_file(owner) && self.length == AES_256_KEY_BYTES
    }

    pub open spec fn is_source_file(self, owner: u32, max_bytes: u64) -> bool {
        self.is_delivered_file(owner) && 0 < self.length <= max_bytes
    }
}

/// Non-secret identity of the exact delivered credential.
///
/// It holds no descriptor and no path: the device and inode numbers suffice to
/// keep model files apart from the credential before any model byte is read.
#[derive(Clone, Copy, Debug, PartialEq, Eq, Structural)]
pub struct CredentialSourceIdentity {
    pub directory: DescriptorIdentity,
    pub credential: DescriptorIdentity,
    pub source_companion: Option<DescriptorIdentity>,
}

impl CredentialSourceIdentity {
    pub fn from_metadata(
        directory: CredentialMetadata,
        credential: CredentialMetadata,
        source_companion: CredentialMetadata,
    ) -> (identity: Self)
        ensures
            identity == (CredentialSourceIdentity {
                directory: directory.descriptor(),
                credential: credential.descriptor(),
                source_companion: Some(source_companion.descriptor()),
            }),
    {
        CredentialSourceIdentity {
            directory: directory.identity(),
            credential: credential.identity(),
            source_companion: Some(source_companion.identity()),
        }
    }

    pub fn credential_name(self) -> (name: &'static str)
        ensures
            name@ == "howy.storage.mode1.epoch1"@,
    {
        MODE1_CREDENTIAL_NAME
    }

    /// `file` is the credential or its companion under whatever name it was opened.
    pub open spec fn names(self, file: DescriptorIdentity) -> bool {
        self.credential == file || self.source_companion == Some(file)
    }

    pub fn matches_credential(self, file: DescriptorIdentity) -> (found: bool)
        ensures
            found == self.names(file),
    {
        let companion = match self.source_companion {
            Some(source) => source == file,
            None => false,
        };
        self.credential == file || companion
    }

    pub fn matches_directory(self, file: DescriptorIdentity) -> (found: bool)
        ensures
            found == (self.directory == file),
    {
        self.directory == file
    }
}

/// Mode-aware key state established before inference, camera, storage or IPC.
/// The key bytes themselves stay in the guarded memory that the program holds.
#[derive(Debug, PartialEq, Eq)]
pub enum StartupKeyContext {
    Mode0,
    Mode1(Mode1KeyContext),
}

/// What is known of a loaded key besides its bytes.
#[derive(Debug, PartialEq, Eq)]
pub struct Mode1KeyContext {
    pub identity: [u8; 32],
    pub credential_source: CredentialSourceIdentity,
    pub configured_source: String,
}

impl StartupKeyContext {
    pub fn credential_source_identity(&self) -> (identity: Option<CredentialSourceIdentity>)
        ensures
            identity == (match *self {
                StartupKeyContext::Mode0 => None,
                StartupKeyContext::Mode1(context) => Some(context.credential_source),
            }),
    {
        match self {
            StartupKeyContext::Mode0 => None,
            StartupKeyContext::Mode1(context) => Some(context.credential_source),
        }
    }

    pub fn configured_credential_source(&self) -> (source: Option<&str>)
        ensures
            source is Some <==> *self is Mode1,
            source matches Some(text) ==> text@ == self->Mode1_0.configured_source@,
    {
        match self {
            StartupKeyContext::Mode0 => None,
            StartupKeyContext::Mode1(context) => Some(context.configured_source.as_str()),
        }
    }
}

pub fn validate_absolute_directory_path(path: &[u8]) -> (result: Result<(), StartupKeyError>)
    ensures
        result == (if strict_absolute(path@) {
            Ok(())
        } else {
            Err(StartupKeyError::CredentialRejected)
        }),
{
    if is_strict_absolute(path) {
        Ok(())
    } else {
        Err(StartupKeyError::CredentialRejected)
    }
}

pub fn validate_directory_metadata(metadata: CredentialMetadata, expected_owner: u32) -> (result:
    Result<(), StartupKeyError>)
    ensures
        result == (if metadata.is_delivery_directory(expected_owner) {
            Ok(())
        } else {
            Err(StartupKeyError::CredentialRejected)
        }),
{
    if metadata.kind != MetadataKind::Directory || metadata.owner != expected_owner || metadata.mode
        != CREDENTIAL_DIRECTORY_MODE {
        return Err(StartupKeyError::CredentialRejected);
    }
    Ok(())
}

pub fn validate_credential_metadata(metadata: CredentialMetadata, expected_owner: u32) -> (result:
    Result<(), StartupKeyError>)
    ensures
        result == (if metadata.is_key_file(expected_owner) {
            Ok(())
        } else {
            Err(StartupKeyError::CredentialRejected)
        }),
{
    if metadata.kind != MetadataKind::Regular || metadata.owner != expected_owner || metadata.mode
        != CREDENTIAL_FILE_MODE || metadata.links != 1 || metadata.length != AES_256_KEY_BYTES {
        return Err(StartupKeyError::CredentialRejected);
    }
    Ok(())
}

pub fn validate_source_metadata(
    metadata: CredentialMetadata,
    expected_owner: u32,
    max_source_bytes: u64,
) -> (result: Result<(), StartupKeyError>)
    ensures
        result == (if metadata.is_source_file(expected_owner, max_source_bytes) {
            Ok(())
        } else {
            Err(StartupKeyError::CredentialRejected)
        }),
{
    if metadata.kind != MetadataKind::Regular || metadata.owner != expected_owner || metadata.mode
        != CREDENTIAL_FILE_MODE || metadata.links != 1 || metadata.length == 0 || metadata.length
        > max_source_bytes {
        return Err(StartupKeyError::CredentialRejected);
    }
    Ok(())
}

/// The operations of loading the key, in the order in which they are made.
#[derive(Clone, Copy, Debug, PartialEq, Eq, Structural)]
pub enum KeyStage {
    QueryDelivery,
    FindDirectory,
    OpenDirectory,
    DirectoryMetadata,
    DirectoryAcl,
    OpenSource,
    SourceMetadata,
    SourceAcl,
    ReadSource,
    SourceRecheck,
    OpenCredential,
    CredentialMetadata,
    CredentialAcl,
    AllocateMemory,
    LockMemory,
    ExcludeFromDump,
    ExcludeFromFork,
    ReadKey,
    CredentialRecheck,
    DrawIdentity,
}

impl KeyStage {
    /// The place of the operation in the order.
    pub open spec fn rank(self) -> int {
        match self {
            KeyStage::QueryDelivery => 0,
            KeyStage::FindDirectory => 1,
            KeyStage::OpenDirectory => 2,
            KeyStage::DirectoryMetadata => 3,
            KeyStage::DirectoryAcl => 4,
            KeyStage::OpenSource => 5,
            KeyStage::SourceMetadata => 6,
            KeyStage::SourceAcl => 7,
            KeyStage::ReadSource => 8,
            KeyStage::SourceRecheck => 9,
            KeyStage::OpenCredential => 10,
            KeyStage::CredentialMetadata => 11,
            KeyStage::CredentialAcl => 12,
            KeyStage::AllocateMemory => 13,
            KeyStage::LockMemory => 14,
            KeyStage::ExcludeFromDump => 15,
            KeyStage::ExcludeFromFork => 16,
            KeyStage::ReadKey => 17,
            KeyStage::CredentialRecheck => 18,
            KeyStage::DrawIdentity => 19,
        }
    }

    /// The error that a failed operation becomes.
    pub open spec fn failure_kind(self) -> StartupKeyError {
        match self {
            KeyStage::QueryDelivery => StartupKeyError::UnsupportedCredentialDelivery,
            KeyStage::FindDirectory
            | KeyStage::OpenDirectory
            | KeyStage::OpenSource
            | KeyStage::OpenCredential => StartupKeyError::CredentialUnavailable,
            KeyStage::AllocateMemory
            | KeyStage::LockMemory
            | KeyStage::ExcludeFromDump
            | KeyStage::ExcludeFromFork
            | KeyStage::DrawIdentity => StartupKeyError::GuardedMemoryUnavailable,
            _ => StartupKeyError::CredentialRejected,
        }
    }

    fn failure(self) -> (failure: StartupKeyError)
        ensures
            failure == self.failure_kind(),
    {
        match self {
            KeyStage::QueryDelivery => StartupKeyError::UnsupportedCredentialDelivery,
            KeyStage::FindDirectory
            | KeyStage::OpenDirectory
            | KeyStage::OpenSource
            | KeyStage::OpenCredential => StartupKeyError::CredentialUnavailable,
            KeyStage::AllocateMemory
            | KeyStage::LockMemory
            | KeyStage::ExcludeFromDump
            | KeyStage::ExcludeFromFork
            | KeyStage::DrawIdentity => StartupKeyError::GuardedMemoryUnavailable,
            _ => StartupKeyError::CredentialRejected,
        }
    }
}

/// What an operation returned. `Failed` is its failure; the other replies each
/// belong to the operations that return such a value.
#[derive(Debug)]
pub enum KeyReply {
    Failed,
    Cancelled,
    Supported(bool),
    Directory(Option<Vec<u8>>),
    Metadata(CredentialMetadata),
    HasAcl(bool),
    Done,
}

/// A key load at its next operation, with the metadata recorded so far.
#[derive(Clone, Copy, Debug, PartialEq, Eq, Structural)]
pub struct KeyLoad {
    pub owner: u32,
    pub max_source_bytes: u64,
    pub stage: KeyStage,
    pub directory: Option<CredentialMetadata>,
    pub source: Option<CredentialMetadata>,
    pub credential: Option<CredentialMetadata>,
}

/// What has been loaded, once everything succeeded.
#[derive(Clone, Copy, Debug, PartialEq, Eq, Structural)]
pub enum LoadedKey {
    Mode0,
    Mode1(CredentialSourceIdentity),
}

#[derive(Clone, Copy, Debug, PartialEq, Eq)]
pub enum KeyStep {
    Perform(KeyLoad),
    Finished(Result<LoadedKey, StartupKeyError>),
}

/// What starting a load gives. Plaintext storage needs no key, and nothing is
/// asked of the credential delivery for it.
pub open spec fn load_start(
    mode: EmbeddingSecurityMode,
    key_epoch: u64,
    credential_name: Seq<char>,
    owner: u32,
    max_source_bytes: u64,
    cancelled: bool,
) -> KeyStep {
    if cancelled {
        KeyStep::Finished(Err(StartupKeyError::CredentialUnavailable))
    } else if mode == EmbeddingSecurityMode::Plaintext {
        KeyStep::Finished(Ok(LoadedKey::Mode0))
    } else if mode != EmbeddingSecurityMode::AeadCached {
        KeyStep::Finished(Err(StartupKeyError::UnsupportedMode))
    } else if key_epoch != MODE1_KEY_EPOCH || credential_name != "howy.storage.mode1.epoch1"@ {
        KeyStep::Finished(Err(StartupKeyError::ContractMismatch))
    } else {
        KeyStep::Perform(
            KeyLoad {
                owner,
                max_source_bytes,
                stage: KeyStage::QueryDelivery,
                directory: None,
                source: None,
                credential: None,
            },
        )
    }
}

/// Starts loading the key that the configuration calls for.
pub fn begin_key_load(
    mode: EmbeddingSecurityMode,
    key_epoch: u64,
    credential_name: &str,
    expected_owner: u32,
    max_source_bytes: u64,
    cancelled: bool,
) -> (step: KeyStep)
    ensures
        step == load_start(
            mode,
            key_epoch,
            credential_name@,
            expected_owner,
            max_source_bytes,
            cancelled,
        ),
        step matches KeyStep::Perform(load) ==> load.wf(),
{
    if cancelled {
        return KeyStep::Finished(Err(StartupKeyError::CredentialUnavailable));
    }
    match mode {
        EmbeddingSecurityMode::Plaintext => {
            return KeyStep::Finished(Ok(LoadedKey::Mode0));
        },
        EmbeddingSecurityMode::AeadEphemeral | EmbeddingSecurityMode::ReservedFuture => {
            return KeyStep::Finished(Err(StartupKeyError::UnsupportedMode));
        },
        EmbeddingSecurityMode::AeadCached => {},
    }
    if key_epoch != MODE1_KEY_EPOCH || !str_eq(credential_name, "howy.storage.mode1.epoch1") {
        return KeyStep::Finished(Err(StartupKeyError::ContractMismatch));
    }
    KeyStep::Perform(
        KeyLoad {
            owner: expected_owner,
            max_source_bytes,
            stage: KeyStage::QueryDelivery,
            directory: None,
            source: None,
            credential: None,
        },
    )
}

impl KeyLoad {
    /// Whatever has been recorded has been accepted, and every operation comes
    /// after the metadata it relies on has been recorded.
    pub open spec fn wf(self) -> bool {
        &&& self.directory matches Some(metadata) ==> metadata.is_delivery_directory(self.owner)
        &&& self.source matches Some(metadata) ==> metadata.is_source_file(
            self.owner,
            self.max_source_bytes,
        )
        &&& self.credential matches Some(metadata) ==> metadata.is_key_file(self.owner)
        &&& self.stage.rank() > KeyStage::DirectoryMetadata.rank() ==> self.directory is Some
        &&& self.stage.rank() > KeyStage::SourceMetadata.rank() ==> self.source is Some
        &&& self.stage.rank() > KeyStage::CredentialMetadata.rank() ==> self.credential is Some
    }

    /// Goes on to `stage`, unless the load has been cancelled meanwhile.
    pub open spec fn on_to(self, stage: KeyStage, cancelled: bool) -> KeyStep {
        if cancelled {
            KeyStep::Finished(Err(StartupKeyError::CredentialUnavailable))
        } else {
            KeyStep::Perform(KeyLoad { stage, ..self })
        }
    }

    /// What follows `reply` to the operation of this stage.
    pub open spec fn following(self, reply: KeyReply, cancelled: bool) -> KeyStep {
        let rejected = KeyStep::Finished(Err(StartupKeyError::CredentialRejected));
        let unsupported = KeyStep::Finished(Err(StartupKeyError::UnsupportedCredentialDelivery));
        match (self.stage, reply) {
            (KeyStage::QueryDelivery, KeyReply::Supported(supported)) => if supported {
                self.on_to(KeyStage::FindDirectory, false)
            } else {
                unsupported
            },
            (KeyStage::FindDirectory, KeyReply::Directory(Some(path))) => if cancelled {
                self.on_to(KeyStage::OpenDirectory, true)
            } else if strict_absolute(path@) {
                self.on_to(KeyStage::OpenDirectory, false)
            } else {
                rejected
            },
            (KeyStage::OpenDirectory, KeyReply::Done) => self.on_to(
                KeyStage::DirectoryMetadata,
                false,
            ),
            (KeyStage::DirectoryMetadata, KeyReply::Metadata(metadata)) =>
            if metadata.is_delivery_directory(self.owner) {
                KeyStep::Perform(
                    KeyLoad {
                        stage: KeyStage::DirectoryAcl,
                        directory: Some(metadata),
                        ..self
                    },
                )
            } else {
                rejected
            },
            (KeyStage::DirectoryAcl, KeyReply::HasAcl(has_acl)) => if has_acl {
                unsupported
            } else {
                self.on_to(KeyStage::OpenSource, false)
            },
            (KeyStage::OpenSource, KeyReply::Done) => self.on_to(KeyStage::SourceMetadata, false),
            (KeyStage::SourceMetadata, KeyReply::Metadata(metadata)) =>
            if metadata.is_source_file(self.owner, self.max_source_bytes) {
                KeyStep::Perform(
                    KeyLoad { stage: KeyStage::SourceAcl, source: Some(metadata), ..self },
                )
            } else {
                rejected
            },
            (KeyStage::SourceAcl, KeyReply::HasAcl(has_acl)) => if has_acl {
                unsupported
            } else {
                self.on_to(KeyStage::ReadSource, cancelled)
            },
            (KeyStage::ReadSource, KeyReply::Done) => self.on_to(KeyStage::SourceRecheck, false),
            (KeyStage::SourceRecheck, KeyReply::Metadata(metadata)) => if self.source == Some(
                metadata,
            ) {
                self.on_to(KeyStage::OpenCredential, false)
            } else {
                rejected
            },
            (KeyStage::OpenCredential, KeyReply::Done) => self.on_to(
                KeyStage::CredentialMetadata,
                false,
            ),
            (KeyStage::CredentialMetadata, KeyReply::Metadata(metadata)) =>
            if metadata.is_key_file(self.owner) {
                KeyStep::Perform(
                    KeyLoad { stage: KeyStage::CredentialAcl, credential: Some(metadata), ..self },
                )
            } else {
                rejected
            },
            (KeyStage::CredentialAcl, KeyReply::HasAcl(has_acl)) => if has_acl {
                unsupported
            } else {
                self.on_to(KeyStage::AllocateMemory, cancelled)
            },
            (KeyStage::AllocateMemory, KeyReply::Done) => self.on_to(KeyStage::LockMemory, false),
            (KeyStage::LockMemory, KeyReply::Done) => self.on_to(KeyStage::ExcludeFromDump, false),
            (KeyStage::ExcludeFromDump, KeyReply::Done) => self.on_to(
                KeyStage::ExcludeFromFork,
                false,
            ),
            (KeyStage::ExcludeFromFork, KeyReply::Done) => self.on_to(KeyStage::ReadKey, false),
            (KeyStage::ReadKey, KeyReply::Done) => self.on_to(KeyStage::CredentialRecheck, false),
            (KeyStage::CredentialRecheck, KeyReply::Metadata(metadata)) => if self.credential
                == Some(metadata) {
                self.on_to(KeyStage::DrawIdentity, cancelled)
            } else {
                rejected
            },
            (KeyStage::DrawIdentity, KeyReply::Done) => KeyStep::Finished(
                Ok(
                    LoadedKey::Mode1(
                        CredentialSourceIdentity {
                            directory: self.directory->0.descriptor(),
                            credential: self.credential->0.descriptor(),
                            source_companion: Some(self.source->0.descriptor()),
                        },
                    ),
                ),
            ),
            (KeyStage::ReadSource, KeyReply::Cancelled) => KeyStep::Finished(
                Err(StartupKeyError::CredentialUnavailable),
            ),
            (KeyStage::ReadKey, KeyReply::Cancelled) => KeyStep::Finished(
                Err(StartupKeyError::CredentialUnavailable),
            ),
            _ => KeyStep::Finished(Err(self.stage.failure_kind())),
        }
    }

    fn go_on(self, stage: KeyStage, cancelled: bool) -> (step: KeyStep)
        ensures
            step == self.on_to(stage, cancelled),
    {
        if cancelled {
            KeyStep::Finished(Err(StartupKeyError::CredentialUnavailable))
        } else {
            KeyStep::Perform(KeyLoad { stage, ..self })
        }
    }

    /// Continues with what the operation of this stage returned.
    pub fn after(self, reply: KeyReply, cancelled: bool) -> (step: KeyStep)
        requires
            self.wf(),
        ensures
            step == self.following(reply, cancelled),
            step matches KeyStep::Perform(load) ==> load.wf(),
    {
        match (self.stage, reply) {
            (KeyStage::QueryDelivery, KeyReply::Supported(supported)) => {
                if !supported {
                    return KeyStep::Finished(Err(StartupKeyError::UnsupportedCredentialDelivery));
                }
                self.go_on(KeyStage::FindDirectory, false)
            },
            (KeyStage::FindDirectory, KeyReply::Directory(Some(path))) => {
                if cancelled {
                    return KeyStep::Finished(Err(StartupKeyError::CredentialUnavailable));
                }
                match validate_absolute_directory_path(path.as_slice()) {
                    Ok(()) => self.go_on(KeyStage::OpenDirectory, false),
                    Err(error) => KeyStep::Finished(Err(error)),
                }
            },
            (KeyStage::OpenDirectory, KeyReply::Done) => self.go_on(
                KeyStage::DirectoryMetadata,
                false,
            ),
            (KeyStage::DirectoryMetadata, KeyReply::Metadata(metadata)) => {
                match validate_directory_metadata(metadata, self.owner) {
                    Ok(()) => KeyStep::Perform(
                        KeyLoad {
                            stage: KeyStage::DirectoryAcl,
                            directory: Some(metadata),
                            ..self
                        },
                    ),
                    Err(error) => KeyStep::Finished(Err(error)),
                }
            },
            (KeyStage::DirectoryAcl, KeyReply::HasAcl(has_acl)) => {
                if has_acl {
                    return KeyStep::Finished(Err(StartupKeyError::UnsupportedCredentialDelivery));
                }
                self.go_on(KeyStage::OpenSource, false)
            },
            (KeyStage::OpenSource, KeyReply::Done) => self.go_on(KeyStage::SourceMetadata, false),
            (KeyStage::SourceMetadata, KeyReply::Metadata(metadata)) => {
                match validate_source_metadata(metadata, self.owner, self.max_source_bytes) {
                    Ok(()) => KeyStep::Perform(
                        KeyLoad { stage: KeyStage::SourceAcl, source: Some(metadata), ..self },
                    ),
                    Err(error) => KeyStep::Finished(Err(error)),
                }
            },
            (KeyStage::SourceAcl, KeyReply::HasAcl(has_acl)) => {
                if has_acl {
                    return KeyStep::Finished(Err(StartupKeyError::UnsupportedCredentialDelivery));
                }
                self.go_on(KeyStage::ReadSource, cancelled)
            },
            (KeyStage::ReadSource, KeyReply::Done) => self.go_on(KeyStage::SourceRecheck, false),
            (KeyStage::SourceRecheck, KeyReply::Metadata(metadata)) => {
                if self.source != Some(metadata) {
                    return KeyStep::Finished(Err(StartupKeyError::CredentialRejected));
                }
                self.go_on(KeyStage::OpenCredential, false)
            },
            (KeyStage::OpenCredential, KeyReply::Done) => self.go_on(
                KeyStage::CredentialMetadata,
                false,
            ),
            (KeyStage::CredentialMetadata, KeyReply::Metadata(metadata)) => {
                match validate_credential_metadata(metadata, self.owner) {
                    Ok(()) => KeyStep::Perform(
                        KeyLoad {
                            stage: KeyStage::CredentialAcl,
                            credential: Some(metadata),
                            ..self
                        },
                    ),
                    Err(error) => KeyStep::Finished(Err(error)),
                }
            },
            (KeyStage::CredentialAcl, KeyReply::HasAcl(has_acl)) => {
                if has_acl {
                    return KeyStep::Finished(Err(StartupKeyError::UnsupportedCredentialDelivery));
                }
                self.go_on(KeyStage::AllocateMemory, cancelled)
            },
            (KeyStage::AllocateMemory, KeyReply::Done) => self.go_on(KeyStage::LockMemory, false),
            (KeyStage::LockMemory, KeyReply::Done) => self.go_on(KeyStage::ExcludeFromDump, false),
            (KeyStage::ExcludeFromDump, KeyReply::Done) => self.go_on(
                KeyStage::ExcludeFromFork,
                false,
            ),
            (KeyStage::ExcludeFromFork, KeyReply::Done) => self.go_on(KeyStage::ReadKey, false),
            (KeyStage::ReadKey, KeyReply::Done) => self.go_on(KeyStage::CredentialRecheck, false),
            (KeyStage::CredentialRecheck, KeyReply::Metadata(metadata)) => {
                if self.credential != Some(metadata) {
                    return KeyStep::Finished(Err(StartupKeyError::CredentialRejected));
                }
                self.go_on(KeyStage::DrawIdentity, cancelled)
            },
            (KeyStage::DrawIdentity, KeyReply::Done) => match (
                self.directory,
                self.credential,
                self.source,
            ) {
                (Some(directory), Some(credential), Some(source)) => KeyStep::Finished(
                    Ok(
                        LoadedKey::Mode1(
                            CredentialSourceIdentity::from_metadata(directory, credential, source),
                        ),
                    ),
                ),
                _ => KeyStep::Finished(Err(StartupKeyError::GuardedMemoryUnavailable)),
            },
            (KeyStage::ReadSource, KeyReply::Cancelled) => KeyStep::Finished(
                Err(StartupKeyError::CredentialUnavailable),
            ),
            (KeyStage::ReadKey, KeyReply::Cancelled) => KeyStep::Finished(
                Err(StartupKeyError::CredentialUnavailable),
            ),
            _ => KeyStep::Finished(Err(self.stage.failure())),
        }
    }
}

/// Plaintext storage performs no credential operation at all.
pub proof fn plaintext_mode_touches_no_credential(
    key_epoch: u64,
    credential_name: Seq<char>,
    owner: u32,
    max_source_bytes: u64,
    cancelled: bool,
)
    ensures
        load_start(
            EmbeddingSecurityMode::Plaintext,
            key_epoch,
            credential_name,
            owner,
            max_source_bytes,
            cancelled,
        ) is Finished,
{
}

/// The operations follow one another in the fixed order, each at most once.
/// No guarded memory is asked for before the directory, the companion and the
/// credential have all been accepted, and no key byte is read before the
/// memory is locked and kept out of dumps and children.
pub proof fn key_operations_keep_their_order(load: KeyLoad, reply: KeyReply, cancelled: bool)
    requires
        load.wf(),
    ensures
        load.following(reply, cancelled) matches KeyStep::Perform(next) ==> {
            &&& next.stage.rank() == load.stage.rank() + 1
            &&& next.owner == load.owner
            &&& next.stage.rank() >= KeyStage::AllocateMemory.rank() ==> {
                &&& next.directory matches Some(directory) && directory.is_delivery_directory(
                    next.owner,
                )
                &&& next.source matches Some(source) && source.is_source_file(
                    next.owner,
                    next.max_source_bytes,
                )
                &&& next.credential matches Some(credential) && credential.is_key_file(next.owner)
            }
        },
        load.following(reply, cancelled) matches KeyStep::Finished(Ok(key)) ==> load.stage
            == KeyStage::DrawIdentity && key == LoadedKey::Mode1(
            CredentialSourceIdentity {
                directory: load.directory->0.descriptor(),
                credential: load.credential->0.descriptor(),
                source_companion: Some(load.source->0.descriptor()),
            },
        ),
{
}

/// A key or companion that changed while it was read is rejected.
pub proof fn changed_delivery_is_rejected(load: KeyLoad, again: CredentialMetadata, cancelled: bool)
    requires
        load.wf(),
        load.stage == KeyStage::SourceRecheck && load.source != Some(again) || load.stage
            == KeyStage::CredentialRecheck && load.credential != Some(again),
    ensures
        load.following(KeyReply::Metadata(again), cancelled) == KeyStep::Finished(
            Err::<LoadedKey, StartupKeyError>(StartupKeyError::CredentialRejected),
        ),
{
}

/// A read of exactly `length` bytes, of which `filled` have come.
#[derive(Clone, Copy, Debug, PartialEq, Eq, Structural)]
pub struct ExactRead {
    pub length: usize,
    pub filled: usize,
}

#[derive(Clone, Copy, Debug, PartialEq, Eq, Structural)]
pub enum ReadAction {
    /// Read into the buffer from this offset on.
    Fill { from: usize },
    /// Read one byte more: there must be none.
    Probe,
}

#[derive(Clone, Copy, Debug, PartialEq, Eq, Structural)]
pub enum ReadEvent {
    Count(usize),
    Interrupted,
    Failed,
}

#[derive(Clone, Copy, Debug, PartialEq, Eq, Structural)]
pub enum ReadProgress {
    More(ExactRead),
    Exact,
    Rejected,
}

impl ExactRead {
    pub open spec fn wf(self) -> bool {
        self.filled <= self.length
    }

    pub fn begin(length: usize) -> (read: Self)
        ensures
            read == (ExactRead { length, filled: 0 }),
            read.wf(),
    {
        ExactRead { length, filled: 0 }
    }

    /// The next read, unless the load has been cancelled.
    pub fn action(self, cancelled: bool) -> (action: Result<ReadAction, StartupKeyError>)
        ensures
            action == (if cancelled {
                Err(StartupKeyError::CredentialUnavailable)
            } else if self.filled < self.length {
                Ok(ReadAction::Fill { from: self.filled })
            } else {
                Ok(ReadAction::Probe)
            }),
    {
        if cancelled {
            return Err(StartupKeyError::CredentialUnavailable);
        }
        if self.filled < self.length {
            Ok(ReadAction::Fill { from: self.filled })
        } else {
            Ok(ReadAction::Probe)
        }
    }

    /// What a read of the pending action means. An interrupted read is made
    /// again; the end of the file is due exactly when all bytes have come.
    pub open spec fn progress(self, event: ReadEvent) -> ReadProgress {
        match event {
            ReadEvent::Interrupted => ReadProgress::More(self),
            ReadEvent::Failed => ReadProgress::Rejected,
            ReadEvent::Count(count) => if self.filled < self.length {
                if count == 0 || count > self.length - self.filled {
                    ReadProgress::Rejected
                } else {
                    ReadProgress::More(
                        ExactRead { filled: (self.filled + count) as usize, ..self },
                    )
                }
            } else if count == 0 {
                ReadProgress::Exact
            } else {
                ReadProgress::Rejected
            },
        }
    }

    pub fn after(self, event: ReadEvent) -> (progress: ReadProgress)
        requires
            self.wf(),
        ensures
            progress == self.progress(event),
            progress matches ReadProgress::More(read) ==> read.wf(),
    {
        match event {
            ReadEvent::Interrupted => ReadProgress::More(self),
            ReadEvent::Failed => ReadProgress::Rejected,
            ReadEvent::Count(count) => {
                if self.filled < self.length {
                    if count == 0 || count > self.length - self.filled {
                        ReadProgress::Rejected
                    } else {
                        ReadProgress::More(
                            ExactRead { length: self.length, filled: self.filled + count },
                        )
                    }
                } else if count == 0 {
                    ReadProgress::Exact
                } else {
                    ReadProgress::Rejected
                }
            },
        }
    }
}

/// How many bytes the reads of `events` brought.
pub open spec fn total(events: Seq<ReadEvent>) -> nat
    decreases events.len(),
{
    if events.len() == 0 {
        0
    } else {
        total(events.drop_last()) + match events.last() {
            ReadEvent::Count(count) => count as nat,
            _ => 0,
        }
    }
}

/// Where a read stands after `events`.
pub open spec fn fed(read: ExactRead, events: Seq<ReadEvent>) -> ReadProgress
    decreases events.len(),
{
    if events.len() == 0 {
        ReadProgress::More(read)
    } else {
        match fed(read, events.drop_last()) {
            ReadProgress::More(now) => now.progress(events.last()),
            ended => ended,
        }
    }
}

/// A read is accepted only if the file held exactly the expected number of bytes.
pub proof fn accepted_reads_are_exact(length: usize, events: Seq<ReadEvent>)
    requires
        events.len() > 0,
        !(fed(ExactRead { length, filled: 0 }, events.drop_last()) is Exact),
    ensures
        fed(ExactRead { length, filled: 0 }, events) is Exact ==> total(events) == length
            && events.last() == ReadEvent::Count(0),
{
    unfinished_reads_count(length, events.drop_last());
}

proof fn unfinished_reads_count(length: usize, events: Seq<ReadEvent>)
    ensures
        fed(ExactRead { length, filled: 0 }, events) matches ReadProgress::More(read) ==> read.length
            == length && read.filled == total(events) && read.filled <= length,
    decreases events.len(),
{
    if events.len() > 0 {
        unfinished_reads_count(length, events.drop_last());
    }
}

/// What is known of a key that was loaded, with its identity and the companion's
/// text, which must be UTF-8.
pub fn startup_key_context(loaded: LoadedKey, identity: [u8; 32], source: &[u8]) -> (context: Result<
    StartupKeyContext,
    StartupKeyError,
>)
    ensures
        match loaded {
            LoadedKey::Mode0 => context == Ok::<StartupKeyContext, StartupKeyError>(
                StartupKeyContext::Mode0,
            ),
            LoadedKey::Mode1(credential_source) => if valid_utf8(source@) {
                context matches Ok(StartupKeyContext::Mode1(key)) && key.identity == identity
                    && key.credential_source == credential_source && key.configured_source@
                    == decode_utf8(source@)
            } else {
                context == Err::<StartupKeyContext, StartupKeyError>(
                    StartupKeyError::CredentialRejected,
                )
            },
        },
{
    match loaded {
        LoadedKey::Mode0 => Ok(StartupKeyContext::Mode0),
        LoadedKey::Mode1(credential_source) => match utf8_text(source) {
            Some(configured_source) => Ok(
                StartupKeyContext::Mode1(
                    Mode1KeyContext { identity, credential_source, configured_source },
                ),
            ),
            None => Err(StartupKeyError::CredentialRejected),
        },
    }
}

/// A step of giving guarded memory back.
#[derive(Clone, Copy, Debug, PartialEq, Eq, Structural)]
pub enum DisposalAction {
    Wipe,
    Unlock,
    Unmap,
}

/// What giving a guarded allocation back takes, in order: the key is wiped
/// before the page is unlocked, and unlocked before it is unmapped. An
/// allocation that is gone needs nothing.
pub fn disposal_plan(mapped: bool, locked: bool) -> (plan: Vec<DisposalAction>)
    ensures
        plan@ == (if !mapped {
            seq![]
        } else if locked {
            seq![DisposalAction::Wipe, DisposalAction::Unlock, DisposalAction::Unmap]
        } else {
            seq![DisposalAction::Wipe, DisposalAction::Unmap]
        }),
{
    let mut plan: Vec<DisposalAction> = Vec::new();
    if mapped {
        plan.push(DisposalAction::Wipe);
        if locked {
            plan.push(DisposalAction::Unlock);
        }
        plan.push(DisposalAction::Unmap);
    }
    plan
}

/// The size of a guarded mapping: the data page and a guard page on each side.
pub fn guarded_mapping_length(page_length: usize) -> (length: Option<usize>)
    ensures
        length is Some <==> 3 * page_length <= usize::MAX,
        length matches Some(bytes) ==> bytes == 3 * page_length,
{
    page_length.checked_mul(3)
}

/// The operations of probing the delivered credential's identity.
#[derive(Clone, Copy, Debug, PartialEq, Eq, Structural)]
pub enum GuardStage {
    OpenDirectory,
    OpenCredential,
    OpenCompanion,
    DirectoryMetadata,
}

/// What opening one delivered file by name gave.
#[derive(Clone, Copy, Debug, PartialEq, Eq, Structural)]
pub enum GuardReply {
    Failed,
    Missing,
    Opened,
    File { regular: bool, identity: DescriptorIdentity },
    Directory { identity: DescriptorIdentity },
}

/// A probe for the delivered credential, which reads no byte of it.
#[derive(Clone, Copy, Debug, PartialEq, Eq, Structural)]
pub struct CredentialGuard {
    pub stage: GuardStage,
    pub credential: Option<DescriptorIdentity>,
    pub companion: Option<DescriptorIdentity>,
}

#[derive(Clone, Copy, Debug, PartialEq, Eq)]
pub enum GuardStep {
    Perform(CredentialGuard),
    Finished(Result<Option<CredentialSourceIdentity>, StartupKeyError>),
}

/// Starts a probe below the delivery directory, if there is one.
pub fn begin_credential_guard(directory_path: Option<&[u8]>) -> (step: GuardStep)
    ensures
        step == (match directory_path {
            None => GuardStep::Finished(Ok(None)),
            Some(path) => if strict_absolute(path@) {
                GuardStep::Perform(
                    CredentialGuard {
                        stage: GuardStage::OpenDirectory,
                        credential: None,
                        companion: None,
                    },
                )
            } else {
                GuardStep::Finished(Err(StartupKeyError::CredentialRejected))
            },
        }),
        step matches GuardStep::Perform(guard) ==> guard.wf(),
{
    match directory_path {
        None => GuardStep::Finished(Ok(None)),
        Some(path) => match validate_absolute_directory_path(path) {
            Ok(()) => GuardStep::Perform(
                CredentialGuard {
                    stage: GuardStage::OpenDirectory,
                    credential: None,
                    companion: None,
                },
            ),
            Err(error) => GuardStep::Finished(Err(error)),
        },
    }
}

impl CredentialGuard {
    pub open spec fn wf(self) -> bool {
        self.stage == GuardStage::OpenCompanion || self.stage == GuardStage::DirectoryMetadata
            ==> self.credential is Some
    }

    /// What follows `reply`: a missing credential is no credential, a missing
    /// companion is recorded as such, and anything else that is not a regular
    /// file is rejected.
    pub open spec fn following(self, reply: GuardReply) -> GuardStep {
        match (self.stage, reply) {
            (GuardStage::OpenDirectory, GuardReply::Opened) => GuardStep::Perform(
                CredentialGuard { stage: GuardStage::OpenCredential, ..self },
            ),
            (GuardStage::OpenCredential, GuardReply::Missing) => GuardStep::Finished(Ok(None)),
            (GuardStage::OpenCredential, GuardReply::File { regular: true, identity }) =>
            GuardStep::Perform(
                CredentialGuard {
                    stage: GuardStage::OpenCompanion,
                    credential: Some(identity),
                    ..self
                },
            ),
            (GuardStage::OpenCompanion, GuardReply::Missing) => GuardStep::Perform(
                CredentialGuard { stage: GuardStage::DirectoryMetadata, companion: None, ..self },
            ),
            (GuardStage::OpenCompanion, GuardReply::File { regular: true, identity }) =>
            GuardStep::Perform(
                CredentialGuard {
                    stage: GuardStage::DirectoryMetadata,
                    companion: Some(identity),
                    ..self
                },
            ),
            (GuardStage::DirectoryMetadata, GuardReply::Directory { identity }) =>
            GuardStep::Finished(
                Ok(
                    Some(
                        CredentialSourceIdentity {
                            directory: identity,
                            credential: self.credential->0,
                            source_companion: self.companion,
                        },
                    ),
                ),
            ),
            _ => GuardStep::Finished(Err(StartupKeyError::CredentialRejected)),
        }
    }

    pub fn after(self, reply: GuardReply) -> (step: GuardStep)
        requires
            self.wf(),
        ensures
            step == self.following(reply),
            step matches GuardStep::Perform(guard) ==> guard.wf(),
    {
        match (self.stage, reply) {
            (GuardStage::OpenDirectory, GuardReply::Opened) => GuardStep::Perform(
                CredentialGuard { stage: GuardStage::OpenCredential, ..self },
            ),
            (GuardStage::OpenCredential, GuardReply::Missing) => GuardStep::Finished(Ok(None)),
            (GuardStage::OpenCredential, GuardReply::File { regular: true, identity }) =>
            GuardStep::Perform(
                CredentialGuard {
                    stage: GuardStage::OpenCompanion,
                    credential: Some(identity),
                    ..self
                },
            ),
            (GuardStage::OpenCompanion, GuardReply::Missing) => GuardStep::Perform(
                CredentialGuard { stage: GuardStage::DirectoryMetadata, companion: None, ..self },
            ),
            (GuardStage::OpenCompanion, GuardReply::File { regular: true, identity }) =>
            GuardStep::Perform(
                CredentialGuard {
                    stage: GuardStage::DirectoryMetadata,
                    companion: Some(identity),
                    ..self
                },
            ),
            (GuardStage::DirectoryMetadata, GuardReply::Directory { identity }) => {
                match self.credential {
                    Some(credential) => GuardStep::Finished(
                        Ok(
                            Some(
                                CredentialSourceIdentity {
                                    directory: identity,
                                    credential,
                                    source_companion: self.companion,
                                },
                            ),
                        ),
                    ),
                    None => GuardStep::Finished(Err(StartupKeyError::CredentialRejected)),
                }
            },
            _ => GuardStep::Finished(Err(StartupKeyError::CredentialRejected)),
        }
    }
}


/// What may be delivered: a directory that only its owner may list, a source text and a
/// key that only their owner may read and that have one name each, the key of 32 bytes.
/// Anything else is rejected where it is looked at.
pub proof fn deliveries_are_private(load: KeyLoad, found: CredentialMetadata, cancelled: bool)
    requires
        load.wf(),
    ensures
        load.stage == KeyStage::DirectoryMetadata ==> (load.following(
            KeyReply::Metadata(found),
            cancelled,
        ) is Perform <==> found.kind == MetadataKind::Directory && found.owner == load.owner
            && found.mode == 0o500),
        load.stage == KeyStage::SourceMetadata ==> (load.following(
            KeyReply::Metadata(found),
            cancelled,
        ) is Perform <==> found.kind == MetadataKind::Regular && found.owner == load.owner
            && found.mode == 0o400 && found.links == 1 && 1 <= found.length
            <= load.max_source_bytes),
        load.stage == KeyStage::CredentialMetadata ==> (load.following(
            KeyReply::Metadata(found),
            cancelled,
        ) is Perform <==> found.kind == MetadataKind::Regular && found.owner == load.owner
            && found.mode == 0o400 && found.links == 1 && found.length == 32),
        load.stage == KeyStage::SourceRecheck ==> (load.following(
            KeyReply::Metadata(found),
            cancelled,
        ) is Perform <==> load.source == Some(found)),
        load.stage == KeyStage::CredentialRecheck && !cancelled ==> (load.following(
            KeyReply::Metadata(found),
            cancelled,
        ) is Perform <==> load.credential == Some(found)),
        load.following(KeyReply::Metadata(found), cancelled) matches KeyStep::Perform(next) ==> {
            &&& load.stage == KeyStage::DirectoryMetadata ==> next.directory == Some(found)
            &&& load.stage == KeyStage::SourceMetadata ==> next.source == Some(found)
            &&& load.stage == KeyStage::CredentialMetadata ==> next.credential == Some(found)
        },
        load.following(KeyReply::Metadata(found), cancelled) matches KeyStep::Finished(end) ==> end
            is Err,
{
}

/// An access list on what is delivered, or a system that delivers nothing, ends the
/// loading; without one it goes on, unless it was called off before something is read or
/// guarded memory is taken.
pub proof fn access_lists_end_the_loading(load: KeyLoad, has_acl: bool, cancelled: bool)
    requires
        load.wf(),
        load.stage == KeyStage::DirectoryAcl || load.stage == KeyStage::SourceAcl || load.stage
            == KeyStage::CredentialAcl,
    ensures
        has_acl ==> load.following(KeyReply::HasAcl(has_acl), cancelled) == KeyStep::Finished(
            Err::<LoadedKey, StartupKeyError>(StartupKeyError::UnsupportedCredentialDelivery),
        ),
        !has_acl ==> (load.following(KeyReply::HasAcl(has_acl), cancelled) is Perform <==> !cancelled
            || load.stage == KeyStage::DirectoryAcl),
        !has_acl && cancelled && load.stage != KeyStage::DirectoryAcl ==> load.following(
            KeyReply::HasAcl(has_acl),
            cancelled,
        ) == KeyStep::Finished(
            Err::<LoadedKey, StartupKeyError>(StartupKeyError::CredentialUnavailable),
        ),
{
}

/// What fails ends the loading with an error of its own: the query of what is delivered,
/// what cannot be opened, guarded memory that cannot be had, and else the delivery.
pub proof fn failures_end_the_loading(load: KeyLoad, cancelled: bool)
    requires
        load.wf(),
    ensures
        load.following(KeyReply::Failed, cancelled) == KeyStep::Finished(
            Err::<LoadedKey, StartupKeyError>(
                if load.stage == KeyStage::QueryDelivery {
                    StartupKeyError::UnsupportedCredentialDelivery
                } else if load.stage == KeyStage::FindDirectory || load.stage
                    == KeyStage::OpenDirectory || load.stage == KeyStage::OpenSource || load.stage
                    == KeyStage::OpenCredential {
                    StartupKeyError::CredentialUnavailable
                } else if load.stage == KeyStage::AllocateMemory || load.stage
                    == KeyStage::LockMemory || load.stage == KeyStage::ExcludeFromDump || load.stage
                    == KeyStage::ExcludeFromFork || load.stage == KeyStage::DrawIdentity {
                    StartupKeyError::GuardedMemoryUnavailable
                } else {
                    StartupKeyError::CredentialRejected
                },
            ),
        ),
        load.stage == KeyStage::ReadSource || load.stage == KeyStage::ReadKey ==> load.following(
            KeyReply::Cancelled,
            cancelled,
        ) == KeyStep::Finished(
            Err::<LoadedKey, StartupKeyError>(StartupKeyError::CredentialUnavailable),
        ),
        load.stage == KeyStage::QueryDelivery ==> load.following(
            KeyReply::Supported(false),
            cancelled,
        ) == KeyStep::Finished(
            Err::<LoadedKey, StartupKeyError>(StartupKeyError::UnsupportedCredentialDelivery),
        ) && load.following(KeyReply::Supported(true), cancelled) is Perform,
{
}

/// What was done takes the loading on, and the last step gives the identities of the
/// three things that were delivered.
pub proof fn finished_loads_name_what_was_delivered(load: KeyLoad, cancelled: bool)
    requires
        load.wf(),
    ensures
        load.stage == KeyStage::OpenDirectory || load.stage == KeyStage::OpenSource || load.stage
            == KeyStage::ReadSource || load.stage == KeyStage::OpenCredential || load.stage
            == KeyStage::AllocateMemory || load.stage == KeyStage::LockMemory || load.stage
            == KeyStage::ExcludeFromDump || load.stage == KeyStage::ExcludeFromFork || load.stage
            == KeyStage::ReadKey ==> load.following(KeyReply::Done, cancelled) is Perform,
        load.stage == KeyStage::DrawIdentity ==> {
            let end = load.following(KeyReply::Done, cancelled);
            &&& end is Finished && end->Finished_0 is Ok
            &&& end->Finished_0->Ok_0 matches LoadedKey::Mode1(identity) && {
                &&& identity.directory.device == load.directory->0.device
                &&& identity.directory.inode == load.directory->0.inode
                &&& identity.credential.device == load.credential->0.device
                &&& identity.credential.inode == load.credential->0.inode
                &&& identity.source_companion is Some
                &&& identity.source_companion->0.device == load.source->0.device
                &&& identity.source_companion->0.inode == load.source->0.inode
            }
        },
{
}

/// How loading starts: not at all where it was called off, with no key for plain text,
/// and for cached encryption only under the one epoch and the one name.
pub proof fn loads_start_under_their_contract(
    mode: EmbeddingSecurityMode,
    key_epoch: u64,
    credential_name: Seq<char>,
    owner: u32,
    max_source_bytes: u64,
    cancelled: bool,
)
    ensures
        ({
            let start = load_start(
                mode,
                key_epoch,
                credential_name,
                owner,
                max_source_bytes,
                cancelled,
            );
            &&& start is Perform <==> {
                &&& !cancelled && mode == EmbeddingSecurityMode::AeadCached
                &&& key_epoch == 1 && credential_name == "howy.storage.mode1.epoch1"@
            }
            &&& start matches KeyStep::Perform(load) ==> load.owner == owner
                && load.max_source_bytes == max_source_bytes && load.stage
                == KeyStage::QueryDelivery && load.directory is None && load.source is None
                && load.credential is None
            &&& (start matches KeyStep::Finished(Ok(key)) && key == LoadedKey::Mode0)
                <==> !cancelled && mode == EmbeddingSecurityMode::Plaintext
            &&& !cancelled && (mode == EmbeddingSecurityMode::AeadEphemeral || mode
                == EmbeddingSecurityMode::ReservedFuture) ==> start == KeyStep::Finished(
                Err::<LoadedKey, StartupKeyError>(StartupKeyError::UnsupportedMode),
            )
            &&& !cancelled && mode == EmbeddingSecurityMode::AeadCached && (key_epoch != 1
                || credential_name != "howy.storage.mode1.epoch1"@) ==> start == KeyStep::Finished(
                Err::<LoadedKey, StartupKeyError>(StartupKeyError::ContractMismatch),
            )
            &&& cancelled ==> start == KeyStep::Finished(
                Err::<LoadedKey, StartupKeyError>(StartupKeyError::CredentialUnavailable),
            )
        }),
{
}

/// Pieces that together have the wanted length, none of them empty, and then an end, are
/// accepted as exact.
pub proof fn whole_reads_are_accepted(length: usize, pieces: Seq<usize>)
    requires
        forall|i: int| 0 <= i < pieces.len() ==> #[trigger] pieces[i] > 0,
        total(events_of(pieces)) == length,
    ensures
        fed(
            ExactRead { length, filled: 0 },
            events_of(pieces).push(ReadEvent::Count(0)),
        ) is Exact,
{
    reads_fill_up(length, pieces);
    let all = events_of(pieces).push(ReadEvent::Count(0));
    assert(all.drop_last() =~= events_of(pieces));
}

/// The arrival of pieces of these sizes.
pub open spec fn events_of(pieces: Seq<usize>) -> Seq<ReadEvent> {
    pieces.map_values(|count: usize| ReadEvent::Count(count))
}

proof fn reads_fill_up(length: usize, pieces: Seq<usize>)
    requires
        forall|i: int| 0 <= i < pieces.len() ==> #[trigger] pieces[i] > 0,
        total(events_of(pieces)) <= length,
    ensures
        fed(ExactRead { length, filled: 0 }, events_of(pieces)) == ReadProgress::More(
            ExactRead { length, filled: total(events_of(pieces)) as usize },
        ),
    decreases pieces.len(),
{
    if pieces.len() > 0 {
        let before = pieces.drop_last();
        assert(events_of(pieces).drop_last() =~= events_of(before));
        assert(events_of(pieces).last() == ReadEvent::Count(pieces.last()));
        assert forall|i: int| 0 <= i < before.len() implies #[trigger] before[i] > 0 by {
            assert(before[i] == pieces[i]);
        }
        assert(pieces[pieces.len() - 1] > 0);
        reads_fill_up(length, before);
    }
}

/// A guard looks for the key and for its companion: without a key there is nothing to
/// guard, a companion may be missing, and neither may be anything but a regular file.
pub proof fn guards_name_what_they_found(guard: CredentialGuard, identity: DescriptorIdentity)
    requires
        guard.wf(),
    ensures
        guard.stage == GuardStage::OpenCredential ==> guard.following(GuardReply::Missing)
            == GuardStep::Finished(
            Ok::<Option<CredentialSourceIdentity>, StartupKeyError>(None),
        ),
        guard.stage == GuardStage::OpenCredential ==> (guard.following(
            GuardReply::File { regular: true, identity },
        ) matches GuardStep::Perform(next) && next.stage == GuardStage::OpenCompanion
            && next.credential == Some(identity)),
        guard.stage == GuardStage::OpenCompanion ==> (guard.following(
            GuardReply::File { regular: true, identity },
        ) matches GuardStep::Perform(next) && next.stage == GuardStage::DirectoryMetadata
            && next.credential == guard.credential && next.companion == Some(identity)),
        guard.stage == GuardStage::OpenCompanion ==> (guard.following(
            GuardReply::Missing,
        ) matches GuardStep::Perform(next) && next.stage == GuardStage::DirectoryMetadata
            && next.credential == guard.credential && next.companion is None),
        guard.stage == GuardStage::DirectoryMetadata ==> (guard.following(
            GuardReply::Directory { identity },
        ) matches GuardStep::Finished(Ok(Some(found))) && found.directory == identity
            && guard.credential == Some(found.credential) && found.source_companion
            == guard.companion),
        guard.following(GuardReply::File { regular: false, identity }) == GuardStep::Finished(
            Err::<Option<CredentialSourceIdentity>, StartupKeyError>(
                StartupKeyError::CredentialRejected,
            ),
        ),
        guard.following(GuardReply::Failed) == GuardStep::Finished(
            Err::<Option<CredentialSourceIdentity>, StartupKeyError>(
                StartupKeyError::CredentialRejected,
            ),
        ),
{
}

} // verus!
