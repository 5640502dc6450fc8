//! Loading the storage key from its delivered credential.
use howy_daemon::mode1_key::{
    begin_credential_guard, begin_key_load, disposal_plan, guarded_mapping_length,
    startup_key_context,
    validate_absolute_directory_path, validate_credential_metadata, validate_directory_metadata,
    validate_source_metadata, CredentialGuard, CredentialMetadata, CredentialSourceIdentity,
    DescriptorIdentity, DisposalAction, EmbeddingSecurityMode, ExactRead, GuardReply, GuardStage,
    GuardStep, KeyReply, KeyStage, KeyStep, LoadedKey, MetadataKind, Mode1KeyContext, ReadAction,
    ReadEvent, ReadProgress, StartupKeyContext, StartupKeyError, AES_256_KEY_BYTES,
    CREDENTIAL_DIRECTORY_MODE, CREDENTIAL_FILE_MODE, MODE1_CREDENTIAL_NAME, MODE1_KEY_EPOCH,
};
use std::collections::VecDeque;

const OWNER: u32 = 0;
const KEY_BYTES: usize = 32;
const MAX_SOURCE_BYTES: u64 = 4096;
const CREDENTIAL_PATH: &str = "/etc/credstore.encrypted/howy.storage.mode1.epoch1";
const CANDIDATE_PATH: &str = "/etc/credstore.encrypted/.howy.storage.mode1.epoch1.candidate";

fn valid_directory_metadata() -> CredentialMetadata {
    CredentialMetadata {
        kind: MetadataKind::Directory,
        owner: OWNER,
        mode: CREDENTIAL_DIRECTORY_MODE,
        links: 2,
        length: 0,
        device: 10,
        inode: 20,
    }
}

fn valid_file_metadata() -> CredentialMetadata {
    CredentialMetadata {
        kind: MetadataKind::Regular,
        owner: OWNER,
        mode: CREDENTIAL_FILE_MODE,
        links: 1,
        length: AES_256_KEY_BYTES,
        device: 10,
        inode: 21,
    }
}

fn valid_source_metadata() -> CredentialMetadata {
    CredentialMetadata {
        length: CREDENTIAL_PATH.len() as u64,
        inode: 22,
        ..valid_file_metadata()
    }
}

struct FakeCredentialIo {
    calls: Vec<&'static str>,
    directory: Option<Vec<u8>>,
    credential_open_fails: bool,
    directory_metadata: CredentialMetadata,
    credential_metadata: CredentialMetadata,
    rechecked_metadata: Option<CredentialMetadata>,
    source_metadata: CredentialMetadata,
    bytes: Vec<u8>,
    source_bytes: Vec<u8>,
    accepts_candidate: bool,
    read_chunks: VecDeque<usize>,
    read_error_after: Option<usize>,
    interrupt_at: VecDeque<usize>,
    directory_acl: bool,
    credential_acl: bool,
    supported: bool,
}

impl FakeCredentialIo {
    fn valid(bytes: Vec<u8>) -> Self {
        Self {
            calls: Vec::new(),
            directory: Some(b"/run/credentials/howy.service".to_vec()),
            credential_open_fails: false,
            directory_metadata: valid_directory_metadata(),
            credential_metadata: valid_file_metadata(),
            rechecked_metadata: None,
            source_metadata: valid_source_metadata(),
            bytes,
            source_bytes: CREDENTIAL_PATH.as_bytes().to_vec(),
            accepts_candidate: false,
            read_chunks: VecDeque::new(),
            read_error_after: None,
            interrupt_at: VecDeque::new(),
            directory_acl: false,
            credential_acl: false,
            supported: true,
        }
    }

    fn source_is_accepted(&self) -> bool {
        self.source_bytes == CREDENTIAL_PATH.as_bytes()
            || (self.accepts_candidate && self.source_bytes == CANDIDATE_PATH.as_bytes())
    }

    /// Reads the key into `key` as a descriptor would deliver it.
    fn read_key(&mut self, key: &mut [u8]) -> bool {
        let mut offset = 0;
        let mut read = ExactRead::begin(key.len());
        loop {
            let action = read.action(false).unwrap();
            let event = if self.interrupt_at.front() == Some(&offset) {
                self.interrupt_at.pop_front();
                ReadEvent::Interrupted
            } else if self.read_error_after == Some(offset) {
                ReadEvent::Failed
            } else {
                let room = match action {
                    ReadAction::Fill { from } => key.len() - from,
                    ReadAction::Probe => 1,
                };
                let chunk = self.read_chunks.pop_front().unwrap_or(room);
                let count = chunk.min(room).min(self.bytes.len() - offset);
                if let ReadAction::Fill { from } = action {
                    key[from..from + count].copy_from_slice(&self.bytes[offset..offset + count]);
                }
                offset += count;
                ReadEvent::Count(count)
            };
            match read.after(event) {
                ReadProgress::More(next) => read = next,
                ReadProgress::Exact => return true,
                ReadProgress::Rejected => return false,
            }
        }
    }
}

#[derive(Clone, Copy, Debug, Eq, PartialEq)]
enum MemoryFailure {
    Allocate,
    Lock,
    DontDump,
    DontFork,
}

#[derive(Default)]
struct FakeMemory {
    events: Vec<&'static str>,
    failure: Option<MemoryFailure>,
    mapped: bool,
    locked: bool,
    key: [u8; KEY_BYTES],
}

impl FakeMemory {
    fn dispose(&mut self) {
        for action in disposal_plan(self.mapped, self.locked) {
            self.events.push(match action {
                DisposalAction::Wipe => {
                    self.key = [0; KEY_BYTES];
                    "wipe"
                }
                DisposalAction::Unlock => "unlock",
                DisposalAction::Unmap => "free",
            });
        }
        self.mapped = false;
        self.locked = false;
    }
}

#[derive(Clone)]
struct Config {
    mode: EmbeddingSecurityMode,
    epoch: u64,
    name: &'static str,
}

fn mode_config(mode: EmbeddingSecurityMode) -> Config {
    Config {
        mode,
        epoch: MODE1_KEY_EPOCH,
        name: MODE1_CREDENTIAL_NAME,
    }
}

fn load_fake(
    config: &Config,
    io: &mut FakeCredentialIo,
    memory: &mut FakeMemory,
) -> Result<LoadedKey, StartupKeyError> {
    let mut step = begin_key_load(
        config.mode,
        config.epoch,
        config.name,
        OWNER,
        MAX_SOURCE_BYTES,
        false,
    );
    loop {
        let load = match step {
            KeyStep::Finished(result) => {
                if result.is_err() {
                    memory.dispose();
                }
                return result;
            }
            KeyStep::Perform(load) => load,
        };
        let done = |succeeded: bool| {
            if succeeded {
                KeyReply::Done
            } else {
                KeyReply::Failed
            }
        };
        let reply = match load.stage {
            KeyStage::QueryDelivery => KeyReply::Supported(io.supported),
            KeyStage::FindDirectory => {
                io.calls.push("env");
                KeyReply::Directory(io.directory.clone())
            }
            KeyStage::OpenDirectory => {
                io.calls.push("open_dir");
                KeyReply::Done
            }
            KeyStage::DirectoryMetadata => KeyReply::Metadata(io.directory_metadata),
            KeyStage::DirectoryAcl => KeyReply::HasAcl(io.directory_acl),
            KeyStage::OpenSource => KeyReply::Done,
            KeyStage::SourceMetadata | KeyStage::SourceRecheck => {
                KeyReply::Metadata(io.source_metadata)
            }
            KeyStage::SourceAcl => KeyReply::HasAcl(false),
            KeyStage::ReadSource => done(io.source_is_accepted()),
            KeyStage::OpenCredential => {
                io.calls.push("open_credential");
                done(!io.credential_open_fails)
            }
            KeyStage::CredentialMetadata => KeyReply::Metadata(io.credential_metadata),
            KeyStage::CredentialAcl => KeyReply::HasAcl(io.credential_acl),
            KeyStage::AllocateMemory => {
                memory.events.push("allocate");
                memory.mapped = memory.failure != Some(MemoryFailure::Allocate);
                done(memory.mapped)
            }
            KeyStage::LockMemory => {
                memory.events.push("mlock");
                memory.locked = memory.failure != Some(MemoryFailure::Lock);
                done(memory.locked)
            }
            KeyStage::ExcludeFromDump => {
                memory.events.push("dontdump");
                done(memory.failure != Some(MemoryFailure::DontDump))
            }
            KeyStage::ExcludeFromFork => {
                memory.events.push("dontfork");
                done(memory.failure != Some(MemoryFailure::DontFork))
            }
            KeyStage::ReadKey => done(io.read_key(&mut memory.key)),
            KeyStage::CredentialRecheck => {
                KeyReply::Metadata(io.rechecked_metadata.unwrap_or(io.credential_metadata))
            }
            KeyStage::DrawIdentity => KeyReply::Done,
        };
        step = load.after(reply, false);
    }
}

fn load_cached(
    io: &mut FakeCredentialIo,
    memory: &mut FakeMemory,
) -> Result<LoadedKey, StartupKeyError> {
    load_fake(
        &mode_config(EmbeddingSecurityMode::AeadCached),
        io,
        memory,
    )
}

#[test]
fn mode0_performs_no_credential_or_guarded_memory_calls() {
    let mut io = FakeCredentialIo::valid(vec![0x41; KEY_BYTES]);
    let mut memory = FakeMemory::default();
    let context = load_fake(
        &mode_config(EmbeddingSecurityMode::Plaintext),
        &mut io,
        &mut memory,
    )
    .unwrap();
    assert_eq!(context, LoadedKey::Mode0);
    assert!(io.calls.is_empty());
    assert!(memory.events.is_empty());
}

#[test]
fn source_companion_is_required_exact_and_policy_specific_before_key_allocation() {
    let mut candidate_io = FakeCredentialIo::valid(vec![0x41; KEY_BYTES]);
    candidate_io.source_bytes = CANDIDATE_PATH.as_bytes().to_vec();
    candidate_io.source_metadata.length = CANDIDATE_PATH.len() as u64;
    candidate_io.accepts_candidate = true;
    let mut memory = FakeMemory::default();
    let loaded = load_cached(&mut candidate_io, &mut memory).unwrap();
    let context = startup_key_context(loaded, [7; 32], &candidate_io.source_bytes).unwrap();
    assert_eq!(context.configured_credential_source(), Some(CANDIDATE_PATH));
    assert_eq!(
        startup_key_context(loaded, [7; 32], &[0xff]).err(),
        Some(StartupKeyError::CredentialRejected)
    );
    assert_eq!(
        startup_key_context(LoadedKey::Mode0, [7; 32], &[0xff]),
        Ok(StartupKeyContext::Mode0)
    );

    let mut production_io = FakeCredentialIo::valid(vec![0x41; KEY_BYTES]);
    production_io.source_bytes = CANDIDATE_PATH.as_bytes().to_vec();
    production_io.source_metadata.length = CANDIDATE_PATH.len() as u64;
    let mut memory = FakeMemory::default();
    assert_eq!(
        load_cached(&mut production_io, &mut memory).err(),
        Some(StartupKeyError::CredentialRejected)
    );
    assert!(memory.events.is_empty());

    let mut symlink = FakeCredentialIo::valid(vec![0x41; KEY_BYTES]);
    symlink.source_metadata.kind = MetadataKind::Symlink;
    let mut memory = FakeMemory::default();
    assert_eq!(
        load_cached(&mut symlink, &mut memory).err(),
        Some(StartupKeyError::CredentialRejected)
    );
    assert!(memory.events.is_empty());
}

#[test]
fn source_companion_metadata_length_and_ascii_fail_before_key_allocation() {
    for mutate in [
        |metadata: &mut CredentialMetadata| metadata.owner = 1,
        |metadata: &mut CredentialMetadata| metadata.mode = 0o600,
        |metadata: &mut CredentialMetadata| metadata.links = 2,
        |metadata: &mut CredentialMetadata| metadata.length = 0,
        |metadata: &mut CredentialMetadata| metadata.length = MAX_SOURCE_BYTES + 1,
    ] {
        let mut io = FakeCredentialIo::valid(vec![0x41; KEY_BYTES]);
        mutate(&mut io.source_metadata);
        let mut memory = FakeMemory::default();
        assert_eq!(
            load_cached(&mut io, &mut memory).err(),
            Some(StartupKeyError::CredentialRejected)
        );
        assert!(memory.events.is_empty());
    }
    for bytes in [
        b"relative".to_vec(),
        b"/etc/credstore.encrypted/name\n".to_vec(),
        vec![0xff],
    ] {
        let mut io = FakeCredentialIo::valid(vec![0x41; KEY_BYTES]);
        io.source_metadata.length = bytes.len() as u64;
        io.source_bytes = bytes;
        let mut memory = FakeMemory::default();
        assert_eq!(
            load_cached(&mut io, &mut memory).err(),
            Some(StartupKeyError::CredentialRejected)
        );
        assert!(memory.events.is_empty());
    }
}

#[test]
fn disabled_mode1_still_requires_and_loads_the_exact_key() {
    let mut io = FakeCredentialIo::valid(vec![0x41; KEY_BYTES]);
    let mut memory = FakeMemory::default();
    let context = load_cached(&mut io, &mut memory).unwrap();
    assert!(matches!(context, LoadedKey::Mode1(_)));
    assert_eq!(io.calls.first(), Some(&"env"));
    assert_eq!(memory.key, [0x41; KEY_BYTES]);
}

fn source_identity() -> CredentialSourceIdentity {
    CredentialSourceIdentity {
        directory: DescriptorIdentity {
            device: 10,
            inode: 20,
        },
        credential: DescriptorIdentity {
            device: 10,
            inode: 21,
        },
        source_companion: Some(DescriptorIdentity {
            device: 10,
            inode: 22,
        }),
    }
}

#[test]
fn valid_key_is_locked_nondumpable_nonforking_and_wiped_before_unlock() {
    let mut io = FakeCredentialIo::valid(vec![0x41; KEY_BYTES]);
    let mut memory = FakeMemory::default();
    let LoadedKey::Mode1(identity) = load_cached(&mut io, &mut memory).unwrap() else {
        panic!("expected Mode 1 key context")
    };
    assert_eq!(identity, source_identity());
    assert_eq!(identity.credential_name(), MODE1_CREDENTIAL_NAME);
    let context = StartupKeyContext::Mode1(Mode1KeyContext {
        identity: [9; 32],
        credential_source: identity,
        configured_source: CREDENTIAL_PATH.to_string(),
    });
    assert_eq!(context.credential_source_identity(), Some(source_identity()));
    assert_eq!(
        context
            .configured_credential_source()
            .expect("Mode 1 source companion"),
        CREDENTIAL_PATH
    );
    assert_eq!(
        memory.events.as_slice(),
        ["allocate", "mlock", "dontdump", "dontfork"]
    );
    memory.dispose();
    assert_eq!(
        memory.events.as_slice(),
        ["allocate", "mlock", "dontdump", "dontfork", "wipe", "unlock", "free"]
    );
}

#[test]
fn missing_and_ambiguous_directory_inputs_fail_before_open_or_memory() {
    for directory in [
        None,
        Some("relative"),
        Some("//run/credentials"),
        Some("/run//credentials"),
        Some("/run/./credentials"),
        Some("/run/../credentials"),
        Some("/run/credentials/"),
    ] {
        let mut io = FakeCredentialIo::valid(vec![0x41; KEY_BYTES]);
        io.directory = directory.map(|path| path.as_bytes().to_vec());
        let mut memory = FakeMemory::default();
        assert!(load_cached(&mut io, &mut memory).is_err());
        assert_eq!(io.calls, ["env"]);
        assert!(memory.events.is_empty());
    }
    assert!(validate_absolute_directory_path(b"/run/credentials").is_ok());
    assert!(validate_absolute_directory_path(b"/").is_err());
}

#[test]
fn missing_file_and_symlink_or_bad_directory_fail_before_memory() {
    let mut cases = Vec::new();

    let mut missing = FakeCredentialIo::valid(vec![0x41; KEY_BYTES]);
    missing.credential_open_fails = true;
    cases.push(missing);

    let mut symlink_dir = FakeCredentialIo::valid(vec![0x41; KEY_BYTES]);
    symlink_dir.directory_metadata.kind = MetadataKind::Symlink;
    cases.push(symlink_dir);

    let mut wrong_dir_owner = FakeCredentialIo::valid(vec![0x41; KEY_BYTES]);
    wrong_dir_owner.directory_metadata.owner = OWNER + 1;
    cases.push(wrong_dir_owner);

    let mut wrong_dir_mode = FakeCredentialIo::valid(vec![0x41; KEY_BYTES]);
    wrong_dir_mode.directory_metadata.mode = 0o700;
    cases.push(wrong_dir_mode);

    for mut io in cases {
        let mut memory = FakeMemory::default();
        assert!(load_cached(&mut io, &mut memory).is_err());
        assert!(memory.events.is_empty());
    }
}

#[test]
fn credential_metadata_violations_fail_before_read_and_memory() {
    let mut metadata_cases = Vec::new();
    for kind in [
        MetadataKind::Directory,
        MetadataKind::Symlink,
        MetadataKind::Other,
    ] {
        let mut metadata = valid_file_metadata();
        metadata.kind = kind;
        metadata_cases.push(metadata);
    }
    let mut wrong_owner = valid_file_metadata();
    wrong_owner.owner += 1;
    metadata_cases.push(wrong_owner);
    let mut wrong_mode = valid_file_metadata();
    wrong_mode.mode = 0o440;
    metadata_cases.push(wrong_mode);
    let mut links = valid_file_metadata();
    links.links = 2;
    metadata_cases.push(links);
    for length in [0, 31, 33] {
        let mut metadata = valid_file_metadata();
        metadata.length = length;
        metadata_cases.push(metadata);
    }

    for metadata in metadata_cases {
        let mut io = FakeCredentialIo::valid(vec![0x41; KEY_BYTES]);
        io.credential_metadata = metadata;
        let mut memory = FakeMemory::default();
        assert_eq!(
            load_cached(&mut io, &mut memory).err(),
            Some(StartupKeyError::CredentialRejected)
        );
        assert!(memory.events.is_empty());
    }
}

#[test]
fn short_extra_and_read_error_wipe_partial_guarded_bytes() {
    let mut cases = Vec::new();

    let mut short = FakeCredentialIo::valid(vec![0x41; 31]);
    short.credential_metadata.length = 32;
    cases.push(short);

    let mut extra = FakeCredentialIo::valid(vec![0x41; 33]);
    extra.credential_metadata.length = 32;
    cases.push(extra);

    let mut read_error = FakeCredentialIo::valid(vec![0x41; 32]);
    read_error.read_chunks = VecDeque::from([10]);
    read_error.read_error_after = Some(10);
    cases.push(read_error);

    for mut io in cases {
        let mut memory = FakeMemory::default();
        assert_eq!(
            load_cached(&mut io, &mut memory).err(),
            Some(StartupKeyError::CredentialRejected)
        );
        assert_eq!(
            memory.events.as_slice(),
            ["allocate", "mlock", "dontdump", "dontfork", "wipe", "unlock", "free"]
        );
        assert_eq!(memory.key, [0; KEY_BYTES]);
    }
}

#[test]
fn exact_binary_key_accepts_trailing_newline_and_embedded_nul_but_rejects_33rd_newline() {
    let mut trailing_newline = vec![0x41; 32];
    trailing_newline[31] = b'\n';
    let mut embedded_nul = vec![0x41; 32];
    embedded_nul[7] = 0;
    for bytes in [trailing_newline, embedded_nul] {
        let mut io = FakeCredentialIo::valid(bytes);
        let mut memory = FakeMemory::default();
        assert!(load_cached(&mut io, &mut memory).is_ok());
    }

    let mut io = FakeCredentialIo::valid(vec![0x41; 32]);
    io.bytes.push(b'\n');
    io.credential_metadata.length = 32;
    let mut memory = FakeMemory::default();
    assert_eq!(
        load_cached(&mut io, &mut memory).err(),
        Some(StartupKeyError::CredentialRejected)
    );
}

#[test]
fn interrupted_reads_retry_before_during_and_after_the_exact_key() {
    for (chunks, interrupts) in [
        (VecDeque::new(), VecDeque::from([0])),
        (VecDeque::from([9]), VecDeque::from([9])),
        (VecDeque::new(), VecDeque::from([32])),
        (VecDeque::from([7, 25]), VecDeque::from([0, 7, 32])),
    ] {
        let mut io = FakeCredentialIo::valid(vec![0x41; 32]);
        io.read_chunks = chunks;
        io.interrupt_at = interrupts;
        let mut memory = FakeMemory::default();
        assert!(load_cached(&mut io, &mut memory).is_ok());
    }
}

#[test]
fn root_owned_mode_and_acl_contract_is_exact() {
    assert_eq!(CREDENTIAL_DIRECTORY_MODE, 0o500);
    assert_eq!(CREDENTIAL_FILE_MODE, 0o400);
    assert_eq!(valid_directory_metadata().owner, 0);
    assert_eq!(valid_file_metadata().owner, 0);
    for acl_target in [0, 1] {
        let mut io = FakeCredentialIo::valid(vec![0x41; 32]);
        io.directory_acl = acl_target == 0;
        io.credential_acl = acl_target == 1;
        let mut memory = FakeMemory::default();
        assert_eq!(
            load_cached(&mut io, &mut memory).err(),
            Some(StartupKeyError::UnsupportedCredentialDelivery)
        );
    }
}

#[test]
fn guarded_memory_failures_wipe_once_and_unlock_only_after_successful_lock() {
    for failure in [
        MemoryFailure::Allocate,
        MemoryFailure::Lock,
        MemoryFailure::DontDump,
        MemoryFailure::DontFork,
    ] {
        let mut io = FakeCredentialIo::valid(vec![0x41; KEY_BYTES]);
        let mut memory = FakeMemory {
            failure: Some(failure),
            ..FakeMemory::default()
        };
        assert_eq!(
            load_cached(&mut io, &mut memory).err(),
            Some(StartupKeyError::GuardedMemoryUnavailable)
        );
        let events = &memory.events;
        assert!(events.iter().filter(|event| **event == "wipe").count() <= 1);
        if failure == MemoryFailure::Allocate {
            assert_eq!(events.as_slice(), ["allocate"]);
        } else {
            assert_eq!(events.iter().filter(|event| **event == "wipe").count(), 1);
            let wipe = events.iter().position(|event| *event == "wipe").unwrap();
            let unlock = events.iter().position(|event| *event == "unlock");
            if let Some(unlock) = unlock {
                assert!(wipe < unlock);
            }
            assert_eq!(unlock.is_none(), failure == MemoryFailure::Lock);
        }
    }
}

#[test]
fn credential_name_and_epoch_mismatch_fail_before_environment_access() {
    for mutate in [0, 1] {
        let mut config = mode_config(EmbeddingSecurityMode::AeadCached);
        if mutate == 0 {
            config.name = "howy.storage.mode1.epoch2";
        } else {
            config.epoch = 2;
        }
        let mut io = FakeCredentialIo::valid(vec![0x41; KEY_BYTES]);
        let mut memory = FakeMemory::default();
        assert_eq!(
            load_fake(&config, &mut io, &mut memory).err(),
            Some(StartupKeyError::ContractMismatch)
        );
        assert!(io.calls.is_empty());
        assert!(memory.events.is_empty());
    }
}

#[test]
fn every_bad_credential_fails_before_inference_camera_and_storage_hooks() {
    let mut io = FakeCredentialIo::valid(vec![0x41; 31]);
    io.credential_metadata.length = 32;
    let mut memory = FakeMemory::default();
    let mut hooks: Vec<&str> = Vec::new();
    let result = load_cached(&mut io, &mut memory);
    if result.is_ok() {
        hooks.extend(["inference", "camera", "storage", "listener"]);
    }
    assert!(result.is_err());
    assert!(hooks.is_empty());
}

#[test]
fn unsupported_modes_and_deliveries_are_refused() {
    for mode in [
        EmbeddingSecurityMode::AeadEphemeral,
        EmbeddingSecurityMode::ReservedFuture,
    ] {
        let mut io = FakeCredentialIo::valid(vec![0x41; KEY_BYTES]);
        let mut memory = FakeMemory::default();
        assert_eq!(
            load_fake(&mode_config(mode), &mut io, &mut memory).err(),
            Some(StartupKeyError::UnsupportedMode)
        );
    }
    let mut io = FakeCredentialIo::valid(vec![0x41; KEY_BYTES]);
    io.supported = false;
    let mut memory = FakeMemory::default();
    assert_eq!(
        load_cached(&mut io, &mut memory).err(),
        Some(StartupKeyError::UnsupportedCredentialDelivery)
    );
    let mut io = FakeCredentialIo::valid(vec![0x41; KEY_BYTES]);
    io.directory = None;
    assert_eq!(
        load_cached(&mut io, &mut memory).err(),
        Some(StartupKeyError::CredentialUnavailable)
    );
    assert_eq!(EmbeddingSecurityMode::Plaintext.code(), 0);
    assert_eq!(EmbeddingSecurityMode::AeadCached.code(), 1);
    assert!(!StartupKeyError::CredentialRejected.message().is_empty());
}

#[test]
fn a_credential_that_changes_while_it_is_read_is_rejected() {
    let mut io = FakeCredentialIo::valid(vec![0x41; KEY_BYTES]);
    io.rechecked_metadata = Some(CredentialMetadata {
        inode: 99,
        ..valid_file_metadata()
    });
    let mut memory = FakeMemory::default();
    assert_eq!(
        load_cached(&mut io, &mut memory).err(),
        Some(StartupKeyError::CredentialRejected)
    );
    assert_eq!(memory.key, [0; KEY_BYTES]);
}

#[test]
fn metadata_rules_are_exact() {
    assert!(validate_directory_metadata(valid_directory_metadata(), 0).is_ok());
    assert!(validate_directory_metadata(valid_directory_metadata(), 1).is_err());
    assert!(validate_credential_metadata(valid_file_metadata(), 0).is_ok());
    assert!(validate_credential_metadata(valid_source_metadata(), 0).is_err());
    assert!(validate_source_metadata(valid_source_metadata(), 0, MAX_SOURCE_BYTES).is_ok());
    assert!(validate_source_metadata(valid_source_metadata(), 0, 3).is_err());
    assert_eq!(
        valid_file_metadata().identity(),
        DescriptorIdentity {
            device: 10,
            inode: 21,
        }
    );
    let identity = CredentialSourceIdentity::from_metadata(
        valid_directory_metadata(),
        valid_file_metadata(),
        valid_source_metadata(),
    );
    assert_eq!(identity, source_identity());
    assert!(identity.matches_credential(valid_file_metadata().identity()));
    assert!(!identity.matches_credential(valid_directory_metadata().identity()));
    assert!(identity.matches_directory(valid_directory_metadata().identity()));
}

#[test]
fn cancelled_reads_stop() {
    let read = ExactRead::begin(32);
    assert!(read.action(true).is_err());
    assert_eq!(read.action(false), Ok(ReadAction::Fill { from: 0 }));
    assert_eq!(read.after(ReadEvent::Count(0)), ReadProgress::Rejected);
    assert_eq!(read.after(ReadEvent::Failed), ReadProgress::Rejected);
}

#[test]
fn guarded_mappings_have_a_page_on_either_side() {
    assert_eq!(guarded_mapping_length(4096), Some(12288));
    assert_eq!(guarded_mapping_length(usize::MAX), None);
}

fn guard(credential: GuardReply, companion: GuardReply) -> GuardStep {
    let GuardStep::Perform(mut guard) =
        begin_credential_guard(Some(b"/run/credentials/howy.service"))
    else {
        panic!("a proper directory is opened");
    };
    loop {
        let reply = match guard.stage {
            GuardStage::OpenDirectory => GuardReply::Opened,
            GuardStage::OpenCredential => credential,
            GuardStage::OpenCompanion => companion,
            GuardStage::DirectoryMetadata => GuardReply::Directory {
                identity: DescriptorIdentity {
                    device: 10,
                    inode: 20,
                },
            },
        };
        match guard.after(reply) {
            GuardStep::Perform(next) => guard = next,
            finished => return finished,
        }
    }
}

#[test]
fn model_guards_know_the_credential_without_reading_it() {
    let file = |inode: u64| GuardReply::File {
        regular: true,
        identity: DescriptorIdentity { device: 10, inode },
    };
    assert_eq!(
        guard(file(21), file(22)),
        GuardStep::Finished(Ok(Some(source_identity())))
    );
    assert_eq!(
        guard(GuardReply::Missing, GuardReply::Missing),
        GuardStep::Finished(Ok(None))
    );
    assert!(matches!(
        guard(GuardReply::Failed, file(22)),
        GuardStep::Finished(Err(_))
    ));
    assert_eq!(
        begin_credential_guard(None),
        GuardStep::Finished(Ok(None))
    );
    assert!(matches!(
        begin_credential_guard(Some(b"relative")),
        GuardStep::Finished(Err(_))
    ));
    let started: Option<CredentialGuard> = match begin_credential_guard(Some(b"/run/x")) {
        GuardStep::Perform(guard) => Some(guard),
        GuardStep::Finished(_) => None,
    };
    assert_eq!(started.unwrap().stage, GuardStage::OpenDirectory);
}
