//! Policy of the single process-spawn boundary: which account the isolated
//! child runs as, what it is checked for, and when it may be started at all.
use crate::mode1_key::EmbeddingSecurityMode;
use crate::paths::{is_strict_absolute, strict_absolute};
use crate::text::{bytes_eq, decimal, push_decimal};
use vstd::prelude::*;
use vstd::string::*;
use vstd::utf8::*;

verus! {

pub const SHARED_NOBODY_ID: u32 = 65534;

/// The account that the child drops to.
#[derive(Clone, Copy, Debug, PartialEq, Eq, Structural)]
pub struct DropIdentity {
    pub uid: u32,
    pub gid: u32,
    pub camera_gid: Option<u32>,
    pub require_irreversible_drop: bool,
}

/// One entry of a user database.
#[derive(Debug)]
pub struct PasswdRecord {
    pub name: Vec<u8>,
    pub password: Vec<u8>,
    pub uid: u32,
    pub gid: u32,
    pub gecos: Vec<u8>,
    pub home: Vec<u8>,
    pub shell: Vec<u8>,
}

/// One entry of a group database.
#[derive(Debug)]
pub struct GroupRecord {
    pub name: Vec<u8>,
    pub password: Vec<u8>,
    pub gid: u32,
    pub has_members: bool,
}

/// One entry of a shadow database.
#[derive(Debug)]
pub struct ShadowRecord {
    pub name: Vec<u8>,
    pub password: Vec<u8>,
    pub last_change: i64,
    pub minimum: i64,
    pub maximum: i64,
    pub warning: i64,
    pub inactive: i64,
    pub expire: i64,
    pub flag: u64,
}

#[derive(Clone, Copy, Debug, PartialEq, Eq, Structural)]
pub enum AccountError {
    NotPrivileged,
    DatabaseRejected,
    DuplicatedInPasswd,
    MetadataRejected,
    NotShadowed,
    AbsentFromPasswd,
    SharedLocally,
    GroupRejectedLocally,
    GidSharedByGroup,
    GroupAbsent,
    ShadowRejected,
    ShadowAbsent,
    IdentityUnavailable,
    GroupUnavailable,
    GroupRejected,
    UidNotCanonical,
    GidNotCanonical,
    UnexpectedGroups,
    IdentitiesDisagree,
}

impl AccountError {
    pub open spec fn text(self) -> Seq<char> {
        match self {
            AccountError::NotPrivileged =>
                "daemon is not privileged enough to create an isolated child"@,
            AccountError::DatabaseRejected => "local account database metadata was rejected"@,
            AccountError::DuplicatedInPasswd =>
                "dedicated FFmpeg account is duplicated in local passwd"@,
            AccountError::MetadataRejected => "dedicated FFmpeg identity metadata was rejected"@,
            AccountError::NotShadowed => "dedicated FFmpeg passwd entry does not use shadow"@,
            AccountError::AbsentFromPasswd =>
                "dedicated FFmpeg account is absent from local passwd"@,
            AccountError::SharedLocally =>
                "dedicated FFmpeg UID or private primary GID is shared locally"@,
            AccountError::GroupRejectedLocally =>
                "dedicated FFmpeg local group metadata was rejected"@,
            AccountError::GidSharedByGroup =>
                "dedicated FFmpeg primary GID is shared by another local group"@,
            AccountError::GroupAbsent =>
                "dedicated FFmpeg private primary group is absent locally"@,
            AccountError::ShadowRejected =>
                "dedicated FFmpeg shadow lock or expiration policy was rejected"@,
            AccountError::ShadowAbsent => "dedicated FFmpeg shadow entry is absent locally"@,
            AccountError::IdentityUnavailable =>
                "validated unprivileged child identity is unavailable"@,
            AccountError::GroupUnavailable => "dedicated FFmpeg primary group is unavailable"@,
            AccountError::GroupRejected => "dedicated FFmpeg primary group was rejected"@,
            AccountError::UidNotCanonical =>
                "dedicated FFmpeg UID is shared or does not resolve canonically"@,
            AccountError::GidNotCanonical =>
                "dedicated FFmpeg GID is shared or does not resolve canonically"@,
            AccountError::UnexpectedGroups =>
                "dedicated FFmpeg account has unexpected configured group memberships"@,
            AccountError::IdentitiesDisagree =>
                "dedicated FFmpeg local and NSS identities disagree"@,
        }
    }

    pub fn message(self) -> (message: &'static str)
        ensures
            message@ == self.text(),
    {
        match self {
            AccountError::NotPrivileged =>
                "daemon is not privileged enough to create an isolated child",
            AccountError::DatabaseRejected => "local account database metadata was rejected",
            AccountError::DuplicatedInPasswd =>
                "dedicated FFmpeg account is duplicated in local passwd",
            AccountError::MetadataRejected => "dedicated FFmpeg identity metadata was rejected",
            AccountError::NotShadowed => "dedicated FFmpeg passwd entry does not use shadow",
            AccountError::AbsentFromPasswd =>
                "dedicated FFmpeg account is absent from local passwd",
            AccountError::SharedLocally =>
                "dedicated FFmpeg UID or private primary GID is shared locally",
            AccountError::GroupRejectedLocally =>
                "dedicated FFmpeg local group metadata was rejected",
            AccountError::GidSharedByGroup =>
                "dedicated FFmpeg primary GID is shared by another local group",
            AccountError::GroupAbsent => "dedicated FFmpeg private primary group is absent locally",
            AccountError::ShadowRejected =>
                "dedicated FFmpeg shadow lock or expiration policy was rejected",
            AccountError::ShadowAbsent => "dedicated FFmpeg shadow entry is absent locally",
            AccountError::IdentityUnavailable =>
                "validated unprivileged child identity is unavailable",
            AccountError::GroupUnavailable => "dedicated FFmpeg primary group is unavailable",
            AccountError::GroupRejected => "dedicated FFmpeg primary group was rejected",
            AccountError::UidNotCanonical =>
                "dedicated FFmpeg UID is shared or does not resolve canonically",
            AccountError::GidNotCanonical =>
                "dedicated FFmpeg GID is shared or does not resolve canonically",
            AccountError::UnexpectedGroups =>
                "dedicated FFmpeg account has unexpected configured group memberships",
            AccountError::IdentitiesDisagree => "dedicated FFmpeg local and NSS identities disagree",
        }
    }
}

/// The dedicated account's name.
pub open spec fn account_name() -> Seq<u8> {
    encode_utf8("howy-ffmpeg"@)
}

fn is_account_name(name: &[u8]) -> (same: bool)
    ensures
        same == (name@ == account_name()),
{
    bytes_eq(name, "howy-ffmpeg".as_bytes())
}

/// The account as it is packaged: unprivileged, not shared, without a login
/// and with no other member in its group.
pub open spec fn conforming_identity(
    uid: u32,
    gid: u32,
    name: Seq<u8>,
    gecos: Seq<u8>,
    home: Seq<u8>,
    shell: Seq<u8>,
    primary_group_has_members: bool,
) -> bool {
    &&& uid != 0 && gid != 0
    &&& uid != SHARED_NOBODY_ID && gid != SHARED_NOBODY_ID
    &&& name == account_name()
    &&& gecos == encode_utf8("Howy FFmpeg sandbox"@)
    &&& home == encode_utf8("/"@)
    &&& shell == encode_utf8("/usr/bin/nologin"@)
    &&& !primary_group_has_members
}

pub fn validate_drop_identity_metadata(
    uid: u32,
    gid: u32,
    name: &[u8],
    gecos: &[u8],
    home: &[u8],
    shell: &[u8],
    primary_group_has_members: bool,
) -> (result: Result<(), AccountError>)
    ensures
        result == (if conforming_identity(
            uid,
            gid,
            name@,
            gecos@,
            home@,
            shell@,
            primary_group_has_members,
        ) {
            Ok(())
        } else {
            Err(AccountError::MetadataRejected)
        }),
{
    if uid == 0 || gid == 0 || uid == SHARED_NOBODY_ID || gid == SHARED_NOBODY_ID
        || !is_account_name(name) || !bytes_eq(gecos, "Howy FFmpeg sandbox".as_bytes())
        || !bytes_eq(home, "/".as_bytes()) || !bytes_eq(shell, "/usr/bin/nologin".as_bytes())
        || primary_group_has_members {
        return Err(AccountError::MetadataRejected);
    }
    Ok(())
}

impl PasswdRecord {
    pub open spec fn conforms(self, group_has_members: bool) -> bool {
        conforming_identity(
            self.uid,
            self.gid,
            self.name@,
            self.gecos@,
            self.home@,
            self.shell@,
            group_has_members,
        )
    }

    pub open spec fn is_account(self) -> bool {
        self.name@ == account_name()
    }

    pub open spec fn is_shadowed(self) -> bool {
        self.password@ == encode_utf8("x"@)
    }
}

impl GroupRecord {
    pub open spec fn is_account(self) -> bool {
        self.name@ == account_name()
    }

    /// The account's private group.
    pub open spec fn is_private(self, gid: u32) -> bool {
        self.gid == gid && self.password@ == encode_utf8("x"@) && !self.has_members
    }
}

impl ShadowRecord {
    pub open spec fn is_account(self) -> bool {
        self.name@ == account_name()
    }

    /// Locked for passwords and expired for every other way in, with no aging.
    pub open spec fn is_locked(self) -> bool {
        &&& self.password@ == encode_utf8("!*"@)
        &&& self.last_change >= 0
        &&& self.minimum == -1 && self.maximum == -1 && self.warning == -1 && self.inactive == -1
        &&& self.expire == 1
        &&& self.flag == u64::MAX
    }
}

/// The account found in the first `count` entries, or the first fault.
pub open spec fn passwd_scan(records: Seq<PasswdRecord>, count: nat) -> Result<
    Option<(u32, u32)>,
    AccountError,
>
    decreases count,
{
    if count == 0 {
        Ok(None)
    } else {
        match passwd_scan(records, (count - 1) as nat) {
            Err(error) => Err(error),
            Ok(found) => {
                let record = records[count - 1];
                if !record.is_account() {
                    Ok(found)
                } else if found is Some {
                    Err(AccountError::DuplicatedInPasswd)
                } else if !record.conforms(false) {
                    Err(AccountError::MetadataRejected)
                } else if !record.is_shadowed() {
                    Err(AccountError::NotShadowed)
                } else {
                    Ok(Some((record.uid, record.gid)))
                }
            },
        }
    }
}

/// Some other entry has the account's user or group id.
pub open spec fn shares_ids(records: Seq<PasswdRecord>, uid: u32, gid: u32) -> bool {
    exists|i: int|
        0 <= i < records.len() && !(#[trigger] records[i]).is_account() && (records[i].uid == uid
            || records[i].gid == gid)
}

/// Whether the account's group is among the first `count` entries, or the first fault.
pub open spec fn group_scan(records: Seq<GroupRecord>, gid: u32, count: nat) -> Result<
    bool,
    AccountError,
>
    decreases count,
{
    if count == 0 {
        Ok(false)
    } else {
        match group_scan(records, gid, (count - 1) as nat) {
            Err(error) => Err(error),
            Ok(found) => {
                let record = records[count - 1];
                if record.is_account() {
                    if found || !record.is_private(gid) {
                        Err(AccountError::GroupRejectedLocally)
                    } else {
                        Ok(true)
                    }
                } else if record.gid == gid {
                    Err(AccountError::GidSharedByGroup)
                } else {
                    Ok(found)
                }
            },
        }
    }
}

/// Whether the account is among the first `count` entries, or the first fault.
pub open spec fn shadow_scan(records: Seq<ShadowRecord>, count: nat) -> Result<bool, AccountError>
    decreases count,
{
    if count == 0 {
        Ok(false)
    } else {
        match shadow_scan(records, (count - 1) as nat) {
            Err(error) => Err(error),
            Ok(found) => {
                let record = records[count - 1];
                if !record.is_account() {
                    Ok(found)
                } else if found || !record.is_locked() {
                    Err(AccountError::ShadowRejected)
                } else {
                    Ok(true)
                }
            },
        }
    }
}

/// What the local databases say of the account.
pub open spec fn local_account(
    passwd: Seq<PasswdRecord>,
    group: Seq<GroupRecord>,
    shadow: Seq<ShadowRecord>,
) -> Result<(u32, u32), AccountError> {
    match passwd_scan(passwd, passwd.len()) {
        Err(error) => Err(error),
        Ok(None) => Err(AccountError::AbsentFromPasswd),
        Ok(Some((uid, gid))) => if shares_ids(passwd, uid, gid) {
            Err(AccountError::SharedLocally)
        } else {
            match group_scan(group, gid, group.len()) {
                Err(error) => Err(error),
                Ok(false) => Err(AccountError::GroupAbsent),
                Ok(true) => match shadow_scan(shadow, shadow.len()) {
                    Err(error) => Err(error),
                    Ok(false) => Err(AccountError::ShadowAbsent),
                    Ok(true) => Ok((uid, gid)),
                },
            }
        },
    }
}

proof fn scan_error_persists(records: Seq<PasswdRecord>, count: nat, more: nat)
    requires
        count <= more,
        passwd_scan(records, count) is Err,
    ensures
        passwd_scan(records, more) == passwd_scan(records, count),
    decreases more,
{
    if more > count {
        scan_error_persists(records, count, (more - 1) as nat);
    }
}

proof fn group_error_persists(records: Seq<GroupRecord>, gid: u32, count: nat, more: nat)
    requires
        count <= more,
        group_scan(records, gid, count) is Err,
    ensures
        group_scan(records, gid, more) == group_scan(records, gid, count),
    decreases more,
{
    if more > count {
        group_error_persists(records, gid, count, (more - 1) as nat);
    }
}

proof fn shadow_error_persists(records: Seq<ShadowRecord>, count: nat, more: nat)
    requires
        count <= more,
        shadow_scan(records, count) is Err,
    ensures
        shadow_scan(records, more) == shadow_scan(records, count),
    decreases more,
{
    if more > count {
        shadow_error_persists(records, count, (more - 1) as nat);
    }
}

fn find_local_account(passwd: &Vec<PasswdRecord>) -> (found: Result<
    Option<(u32, u32)>,
    AccountError,
>)
    ensures
        found == passwd_scan(passwd@, passwd@.len()),
{
    let mut found: Option<(u32, u32)> = None;
    let mut index: usize = 0;
    while index < passwd.len()
        invariant
            index <= passwd@.len(),
            Ok::<Option<(u32, u32)>, AccountError>(found) == passwd_scan(passwd@, index as nat),
        decreases passwd.len() - index,
    {
        let record = &passwd[index];
        let ghost next = (index + 1) as nat;
        if is_account_name(record.name.as_slice()) {
            if found.is_some() {
                proof {
                    scan_error_persists(passwd@, next, passwd@.len());
                }
                return Err(AccountError::DuplicatedInPasswd);
            }
            match validate_drop_identity_metadata(
                record.uid,
                record.gid,
                record.name.as_slice(),
                record.gecos.as_slice(),
                record.home.as_slice(),
                record.shell.as_slice(),
                false,
            ) {
                Err(error) => {
                    proof {
                        scan_error_persists(passwd@, next, passwd@.len());
                    }
                    return Err(error);
                },
                Ok(()) => {},
            }
            if !bytes_eq(record.password.as_slice(), "x".as_bytes()) {
                proof {
                    scan_error_persists(passwd@, next, passwd@.len());
                }
                return Err(AccountError::NotShadowed);
            }
            found = Some((record.uid, record.gid));
        }
        index = index + 1;
    }
    Ok(found)
}

fn ids_are_shared(passwd: &Vec<PasswdRecord>, uid: u32, gid: u32) -> (shared: bool)
    ensures
        shared == shares_ids(passwd@, uid, gid),
{
    let mut index: usize = 0;
    while index < passwd.len()
        invariant
            index <= passwd@.len(),
            forall|i: int|
                0 <= i < index ==> (#[trigger] passwd@[i]).is_account() || (passwd@[i].uid != uid
                    && passwd@[i].gid != gid),
        decreases passwd.len() - index,
    {
        let record = &passwd[index];
        if !is_account_name(record.name.as_slice()) && (record.uid == uid || record.gid == gid) {
            assert(!passwd@[index as int].is_account());
            return true;
        }
        index = index + 1;
    }
    false
}

fn find_local_group(group: &Vec<GroupRecord>, gid: u32) -> (found: Result<bool, AccountError>)
    ensures
        found == group_scan(group@, gid, group@.len()),
{
    let mut found = false;
    let mut index: usize = 0;
    while index < group.len()
        invariant
            index <= group@.len(),
            Ok::<bool, AccountError>(found) == group_scan(group@, gid, index as nat),
        decreases group.len() - index,
    {
        let record = &group[index];
        let ghost next = (index + 1) as nat;
        if is_account_name(record.name.as_slice()) {
            if found || record.gid != gid || !bytes_eq(record.password.as_slice(), "x".as_bytes())
                || record.has_members {
                proof {
                    group_error_persists(group@, gid, next, group@.len());
                }
                return Err(AccountError::GroupRejectedLocally);
            }
            found = true;
        } else if record.gid == gid {
            proof {
                group_error_persists(group@, gid, next, group@.len());
            }
            return Err(AccountError::GidSharedByGroup);
        }
        index = index + 1;
    }
    Ok(found)
}

fn find_local_shadow(shadow: &Vec<ShadowRecord>) -> (found: Result<bool, AccountError>)
    ensures
        found == shadow_scan(shadow@, shadow@.len()),
{
    let mut found = false;
    let mut index: usize = 0;
    while index < shadow.len()
        invariant
            index <= shadow@.len(),
            Ok::<bool, AccountError>(found) == shadow_scan(shadow@, index as nat),
        decreases shadow.len() - index,
    {
        let record = &shadow[index];
        let ghost next = (index + 1) as nat;
        if is_account_name(record.name.as_slice()) {
            if found || !bytes_eq(record.password.as_slice(), "!*".as_bytes())
                || record.last_change < 0 || record.minimum != -1 || record.maximum != -1
                || record.warning != -1 || record.inactive != -1 || record.expire != 1
                || record.flag != 0xffff_ffff_ffff_ffff {
                proof {
                    shadow_error_persists(shadow@, next, shadow@.len());
                }
                return Err(AccountError::ShadowRejected);
            }
            found = true;
        }
        index = index + 1;
    }
    Ok(found)
}

/// Validates the account as the local databases have it.
pub fn validate_local_account_files(
    passwd: &Vec<PasswdRecord>,
    group: &Vec<GroupRecord>,
    shadow: &Vec<ShadowRecord>,
) -> (identity: Result<(u32, u32), AccountError>)
    ensures
        identity == local_account(passwd@, group@, shadow@),
{
    let (uid, gid): (u32, u32) = match find_local_account(passwd) {
        Err(error) => {
            return Err(error);
        },
        Ok(None) => {
            return Err(AccountError::AbsentFromPasswd);
        },
        Ok(Some(identity)) => identity,
    };
    if ids_are_shared(passwd, uid, gid) {
        return Err(AccountError::SharedLocally);
    }
    match find_local_group(group, gid) {
        Err(error) => {
            return Err(error);
        },
        Ok(found) => {
            if !found {
                return Err(AccountError::GroupAbsent);
            }
        },
    }
    match find_local_shadow(shadow) {
        Err(error) => {
            return Err(error);
        },
        Ok(found) => {
            if !found {
                return Err(AccountError::ShadowAbsent);
            }
        },
    }
    Ok((uid, gid))
}

proof fn scanned_account_is_unique(records: Seq<PasswdRecord>, count: nat)
    requires
        count <= records.len(),
    ensures
        passwd_scan(records, count) matches Ok(found) ==> {
            &&& forall|i: int|
                0 <= i < count && (#[trigger] records[i]).is_account() ==> records[i].conforms(
                    false,
                ) && records[i].is_shadowed() && found == Some((records[i].uid, records[i].gid))
            &&& found is Some ==> exists|i: int|
                0 <= i < count && (#[trigger] records[i]).is_account()
            &&& forall|i: int, j: int|
                0 <= i < count && 0 <= j < count && (#[trigger] records[i]).is_account() && (
                #[trigger] records[j]).is_account() ==> i == j
        },
    decreases count,
{
    if count > 0 {
        scanned_account_is_unique(records, (count - 1) as nat);
        if passwd_scan(records, count) is Ok && records[count - 1].is_account() {
            assert(records[count - 1].is_account());
        }
    }
}

proof fn scanned_group_is_private(records: Seq<GroupRecord>, gid: u32, count: nat)
    requires
        count <= records.len(),
    ensures
        group_scan(records, gid, count) matches Ok(found) ==> {
            &&& forall|i: int|
                0 <= i < count && (#[trigger] records[i]).gid == gid ==> records[i].is_account()
                    && records[i].is_private(gid)
            &&& found ==> exists|i: int|
                0 <= i < count && (#[trigger] records[i]).is_account() && records[i].is_private(gid)
        },
    decreases count,
{
    if count > 0 {
        scanned_group_is_private(records, gid, (count - 1) as nat);
        if group_scan(records, gid, count) is Ok && records[count - 1].is_account() {
            assert(records[count - 1].is_private(gid));
        }
    }
}

proof fn scanned_shadow_is_locked(records: Seq<ShadowRecord>, count: nat)
    requires
        count <= records.len(),
    ensures
        shadow_scan(records, count) matches Ok(found) ==> {
            &&& forall|i: int|
                0 <= i < count && (#[trigger] records[i]).is_account() ==> records[i].is_locked()
            &&& found ==> exists|i: int|
                0 <= i < count && (#[trigger] records[i]).is_account()
        },
    decreases count,
{
    if count > 0 {
        scanned_shadow_is_locked(records, (count - 1) as nat);
        if shadow_scan(records, count) is Ok && records[count - 1].is_account() {
            assert(records[count - 1].is_locked());
        }
    }
}

/// An accepted account is the packaged one, stands in the user database once,
/// shares its ids with nobody and its group with no other group, and is locked.
pub proof fn accepted_account_is_private_and_locked(
    passwd: Seq<PasswdRecord>,
    group: Seq<GroupRecord>,
    shadow: Seq<ShadowRecord>,
)
    ensures
        local_account(passwd, group, shadow) matches Ok((uid, gid)) ==> {
            &&& uid != 0 && gid != 0 && uid != SHARED_NOBODY_ID && gid != SHARED_NOBODY_ID
            &&& exists|i: int|
                0 <= i < passwd.len() && (#[trigger] passwd[i]).is_account()
                    && passwd[i].conforms(false) && passwd[i].is_shadowed() && passwd[i].uid == uid
                    && passwd[i].gid == gid
            &&& forall|i: int, j: int|
                0 <= i < passwd.len() && 0 <= j < passwd.len() && (#[trigger] passwd[i]).uid == uid
                    && (#[trigger] passwd[j]).uid == uid ==> i == j
            &&& forall|i: int|
                0 <= i < passwd.len() && (#[trigger] passwd[i]).gid == gid
                    ==> passwd[i].is_account()
            &&& forall|i: int|
                0 <= i < group.len() && (#[trigger] group[i]).gid == gid ==> group[i].is_account()
                    && group[i].is_private(gid)
            &&& forall|i: int|
                0 <= i < shadow.len() && (#[trigger] shadow[i]).is_account()
                    ==> shadow[i].is_locked()
        },
{
    scanned_account_is_unique(passwd, passwd.len());
    scanned_shadow_is_locked(shadow, shadow.len());
    if local_account(passwd, group, shadow) is Ok {
        let gid = local_account(passwd, group, shadow)->Ok_0.1;
        scanned_group_is_private(group, gid, group.len());
        let i = choose|i: int| 0 <= i < passwd.len() && (#[trigger] passwd[i]).is_account();
        assert(passwd[i].is_account());
    }
}

/// Acceptable metadata of a local account database.
pub fn validate_database_metadata(
    is_file: bool,
    owner: u32,
    mode: u32,
    expected_owner: u32,
) -> (result: Result<(), AccountError>)
    ensures
        result == (if is_file && owner == expected_owner && mode & 0o022 == 0 {
            Ok(())
        } else {
            Err(AccountError::DatabaseRejected)
        }),
{
    if !is_file || owner != expected_owner || mode & 0o022 != 0 {
        return Err(AccountError::DatabaseRejected);
    }
    Ok(())
}

/// The lookups that the account is confirmed by, in order.
#[derive(Clone, Copy, Debug, PartialEq, Eq, Structural)]
pub enum IdentityStage {
    LookUpUser,
    LookUpGroup,
    ReverseUser,
    ReverseGroup,
    ListGroups,
}

/// What a lookup found. A lookup that failed or found nothing is `Missing`.
#[derive(Debug)]
pub enum IdentityReply {
    Missing,
    User(PasswdRecord),
    Group(GroupRecord),
    Name(Vec<u8>),
    Groups { count: i32, first: u32 },
}

/// A confirmation of the account at its next lookup. `found` is the account as
/// the name service has it.
#[derive(Debug)]
pub struct IdentityLookup {
    pub local: (u32, u32),
    pub stage: IdentityStage,
    pub found: Option<PasswdRecord>,
}

#[derive(Debug)]
pub enum IdentityStep {
    Perform(IdentityLookup),
    Finished(Result<DropIdentity, AccountError>),
}

/// Starts the confirmation, which only root can use.
pub fn begin_drop_identity(privileged: bool, local: Result<(u32, u32), AccountError>) -> (step:
    IdentityStep)
    ensures
        step == (if !privileged {
            IdentityStep::Finished(Err(AccountError::NotPrivileged))
        } else {
            match local {
                Err(error) => IdentityStep::Finished(Err(error)),
                Ok(identity) => IdentityStep::Perform(
                    IdentityLookup {
                        local: identity,
                        stage: IdentityStage::LookUpUser,
                        found: None,
                    },
                ),
            }
        }),
        step matches IdentityStep::Perform(lookup) ==> lookup.wf(),
{
    if !privileged {
        return IdentityStep::Finished(Err(AccountError::NotPrivileged));
    }
    match local {
        Err(error) => IdentityStep::Finished(Err(error)),
        Ok(identity) => IdentityStep::Perform(
            IdentityLookup { local: identity, stage: IdentityStage::LookUpUser, found: None },
        ),
    }
}

impl IdentityLookup {
    /// The account is known from the second lookup on, and has been accepted
    /// from the third on.
    pub open spec fn wf(self) -> bool {
        &&& self.stage != IdentityStage::LookUpUser ==> self.found is Some
        &&& self.stage != IdentityStage::LookUpUser && self.stage != IdentityStage::LookUpGroup
            ==> self.found->0.conforms(false)
    }

    /// What follows `reply` to the lookup at hand.
    pub open spec fn following(self, reply: IdentityReply, step: IdentityStep) -> bool {
        let refused = |error: AccountError| step == IdentityStep::Finished(Err(error));
        let goes_to = |stage: IdentityStage|
            step == IdentityStep::Perform(IdentityLookup { stage, ..self });
        match self.stage {
            IdentityStage::LookUpUser => match reply {
                IdentityReply::User(record) => step == IdentityStep::Perform(
                    IdentityLookup {
                        local: self.local,
                        stage: IdentityStage::LookUpGroup,
                        found: Some(record),
                    },
                ),
                _ => refused(AccountError::IdentityUnavailable),
            },
            IdentityStage::LookUpGroup => match reply {
                IdentityReply::Group(group) => if group.gid != self.found->0.gid {
                    refused(AccountError::GroupUnavailable)
                } else if !group.is_account() {
                    refused(AccountError::GroupRejected)
                } else if !self.found->0.conforms(group.has_members) {
                    refused(AccountError::MetadataRejected)
                } else {
                    goes_to(IdentityStage::ReverseUser)
                },
                _ => refused(AccountError::GroupUnavailable),
            },
            IdentityStage::ReverseUser => match reply {
                IdentityReply::Name(name) => if name@ == account_name() {
                    goes_to(IdentityStage::ReverseGroup)
                } else {
                    refused(AccountError::UidNotCanonical)
                },
                _ => refused(AccountError::UidNotCanonical),
            },
            IdentityStage::ReverseGroup => match reply {
                IdentityReply::Name(name) => if name@ == account_name() {
                    goes_to(IdentityStage::ListGroups)
                } else {
                    refused(AccountError::GidNotCanonical)
                },
                _ => refused(AccountError::GidNotCanonical),
            },
            IdentityStage::ListGroups => match reply {
                IdentityReply::Groups { count, first } => if count != 1 || first
                    != self.found->0.gid {
                    refused(AccountError::UnexpectedGroups)
                } else if (self.found->0.uid, self.found->0.gid) != self.local {
                    refused(AccountError::IdentitiesDisagree)
                } else {
                    step == IdentityStep::Finished(
                        Ok(
                            DropIdentity {
                                uid: self.local.0,
                                gid: self.local.1,
                                camera_gid: None,
                                require_irreversible_drop: true,
                            },
                        ),
                    )
                },
                _ => refused(AccountError::UnexpectedGroups),
            },
        }
    }

    pub fn after(self, reply: IdentityReply) -> (step: IdentityStep)
        requires
            self.wf(),
        ensures
            self.following(reply, step),
            step matches IdentityStep::Perform(lookup) ==> lookup.wf() && lookup.local
                == self.local,
    {
        let IdentityLookup { local, stage, found } = self;
        match (stage, found) {
            (IdentityStage::LookUpUser, _) => match reply {
                IdentityReply::User(record) => IdentityStep::Perform(
                    IdentityLookup { local, stage: IdentityStage::LookUpGroup, found: Some(record) },
                ),
                _ => IdentityStep::Finished(Err(AccountError::IdentityUnavailable)),
            },
            (IdentityStage::LookUpGroup, Some(user)) => match reply {
                IdentityReply::Group(group) => {
                    if group.gid != user.gid {
                        return IdentityStep::Finished(Err(AccountError::GroupUnavailable));
                    }
                    if !is_account_name(group.name.as_slice()) {
                        return IdentityStep::Finished(Err(AccountError::GroupRejected));
                    }
                    match validate_drop_identity_metadata(
                        user.uid,
                        user.gid,
                        user.name.as_slice(),
                        user.gecos.as_slice(),
                        user.home.as_slice(),
                        user.shell.as_slice(),
                        group.has_members,
                    ) {
                        Err(error) => IdentityStep::Finished(Err(error)),
                        Ok(()) => IdentityStep::Perform(
                            IdentityLookup {
                                local,
                                stage: IdentityStage::ReverseUser,
                                found: Some(user),
                            },
                        ),
                    }
                },
                _ => IdentityStep::Finished(Err(AccountError::GroupUnavailable)),
            },
            (IdentityStage::ReverseUser, Some(user)) => match reply {
                IdentityReply::Name(name) => {
                    if !is_account_name(name.as_slice()) {
                        return IdentityStep::Finished(Err(AccountError::UidNotCanonical));
                    }
                    IdentityStep::Perform(
                        IdentityLookup {
                            local,
                            stage: IdentityStage::ReverseGroup,
                            found: Some(user),
                        },
                    )
                },
                _ => IdentityStep::Finished(Err(AccountError::UidNotCanonical)),
            },
            (IdentityStage::ReverseGroup, Some(user)) => match reply {
                IdentityReply::Name(name) => {
                    if !is_account_name(name.as_slice()) {
                        return IdentityStep::Finished(Err(AccountError::GidNotCanonical));
                    }
                    IdentityStep::Perform(
                        IdentityLookup {
                            local,
                            stage: IdentityStage::ListGroups,
                            found: Some(user),
                        },
                    )
                },
                _ => IdentityStep::Finished(Err(AccountError::GidNotCanonical)),
            },
            (IdentityStage::ListGroups, Some(user)) => match reply {
                IdentityReply::Groups { count, first } => {
                    if count != 1 || first != user.gid {
                        return IdentityStep::Finished(Err(AccountError::UnexpectedGroups));
                    }
                    if user.uid != local.0 || user.gid != local.1 {
                        return IdentityStep::Finished(Err(AccountError::IdentitiesDisagree));
                    }
                    IdentityStep::Finished(
                        Ok(
                            DropIdentity {
                                uid: local.0,
                                gid: local.1,
                                camera_gid: None,
                                require_irreversible_drop: true,
                            },
                        ),
                    )
                },
                _ => IdentityStep::Finished(Err(AccountError::UnexpectedGroups)),
            },
            (_, None) => IdentityStep::Finished(Err(AccountError::IdentityUnavailable)),
        }
    }
}

/// A confirmed identity is the local one, and is neither root's nor shared.
pub proof fn confirmed_identity_is_unprivileged(
    lookup: IdentityLookup,
    reply: IdentityReply,
    identity: DropIdentity,
)
    requires
        lookup.wf(),
        lookup.following(reply, IdentityStep::Finished(Ok(identity))),
    ensures
        (identity.uid, identity.gid) == lookup.local,
        identity.uid != 0 && identity.gid != 0,
        identity.uid != SHARED_NOBODY_ID && identity.gid != SHARED_NOBODY_ID,
        identity.require_irreversible_drop,
        identity.camera_gid is None,
{
}

/// Whether the account conforms, once its identity has been resolved.
pub fn validate_ffmpeg_account(resolved: Result<DropIdentity, AccountError>) -> (result: Result<
    (),
    AccountError,
>)
    ensures
        result == (match resolved {
            Ok(_) => Ok(()),
            Err(error) => Err(error),
        }),
{
    match resolved {
        Ok(_) => Ok(()),
        Err(error) => Err(error),
    }
}

/// The permission bits let the identity open the device for reading and writing
/// with the ids it has anyway.
pub open spec fn reopens_without_group(
    identity: DropIdentity,
    owner: u32,
    group: u32,
    raw_mode: u32,
) -> bool {
    let mode = raw_mode & 0o777u32;
    ||| owner == identity.uid && mode & 0o600u32 == 0o600u32
    ||| group == identity.gid && mode & 0o060u32 == 0o060u32
    ||| mode & 0o006u32 == 0o006u32
}

/// The device's group is one that the identity can be given: it grants access
/// and is neither root's, nor shared, nor the identity's own.
pub open spec fn reopens_with_group(identity: DropIdentity, group: u32, raw_mode: u32) -> bool {
    let mode = raw_mode & 0o777u32;
    mode & 0o060u32 == 0o060u32 && group != 0 && group != SHARED_NOBODY_ID && group != identity.gid
}

#[derive(Clone, Copy, Debug, PartialEq, Eq, Structural)]
pub enum ChildPolicyError {
    Unavailable,
    NotCharacterDevice,
    IdentityUnavailable,
    CameraNotReopenable,
    ExecutableUnavailable,
    ExecutableRejected,
    CredentialProbeUnavailable,
    DirectoryUnavailable,
    AmbiguousPath,
}

/// The identity with the device's group added where nothing less will do.
pub fn identity_for_camera_metadata(
    identity: DropIdentity,
    owner: u32,
    group: u32,
    raw_mode: u32,
) -> (adapted: Result<DropIdentity, ChildPolicyError>)
    ensures
        adapted == (if reopens_without_group(identity, owner, group, raw_mode) {
            Ok(DropIdentity { camera_gid: None, ..identity })
        } else if reopens_with_group(identity, group, raw_mode) {
            Ok(DropIdentity { camera_gid: Some(group), ..identity })
        } else {
            Err(ChildPolicyError::CameraNotReopenable)
        }),
{
    let mode: u32 = raw_mode & 0o777;
    let owner_can_reopen = owner == identity.uid && mode & 0o600 == 0o600;
    let primary_group_can_reopen = group == identity.gid && mode & 0o060 == 0o060;
    let other_can_reopen = mode & 0o006 == 0o006;
    if owner_can_reopen || primary_group_can_reopen || other_can_reopen {
        return Ok(DropIdentity { camera_gid: None, ..identity });
    }
    if mode & 0o060 == 0o060 && group != 0 && group != SHARED_NOBODY_ID && group != identity.gid {
        return Ok(DropIdentity { camera_gid: Some(group), ..identity });
    }
    Err(ChildPolicyError::CameraNotReopenable)
}

/// The observations that a child is verified by, in order.
#[derive(Clone, Copy, Debug, PartialEq, Eq, Structural)]
pub enum ChildProbe {
    UserAndGroupIds,
    SupplementaryGroups,
    NoNewPrivileges,
    RegainUser,
    RegainGroup,
    RegainSupplementaryGroups,
}

/// What was observed.
#[derive(Clone, Copy, Debug, PartialEq, Eq)]
pub enum ChildObservation {
    Failed,
    /// Real, effective and saved ids.
    Ids { uids: (u32, u32, u32), gids: (u32, u32, u32) },
    /// How many supplementary groups there are, and the first of them.
    Groups { count: i64, first: u32 },
    NoNewPrivileges { value: i32 },
    /// An attempt to regain privileges: whether it was refused for want of them.
    Regain { refused: bool },
}

#[derive(Clone, Copy, Debug, PartialEq, Eq, Structural)]
pub enum ChildStep {
    Probe(ChildProbe),
    Verified,
    Rejected,
}

/// What an observation shows of a child that should run as `identity`. Where
/// the drop must be irreversible, the groups are those it was given and every
/// attempt to get privileges back is refused.
pub open spec fn child_step(
    identity: DropIdentity,
    probe: ChildProbe,
    observed: ChildObservation,
) -> ChildStep {
    let expected_count: i64 = if identity.camera_gid is Some {
        1
    } else {
        0
    };
    match (probe, observed) {
        (ChildProbe::UserAndGroupIds, ChildObservation::Ids { uids, gids }) => if uids == (
            identity.uid,
            identity.uid,
            identity.uid,
        ) && gids == (identity.gid, identity.gid, identity.gid) {
            if identity.require_irreversible_drop {
                ChildStep::Probe(ChildProbe::SupplementaryGroups)
            } else {
                ChildStep::Probe(ChildProbe::NoNewPrivileges)
            }
        } else {
            ChildStep::Rejected
        },
        (ChildProbe::SupplementaryGroups, ChildObservation::Groups { count, first }) => if count
            == expected_count && (identity.camera_gid is Some ==> identity.camera_gid == Some(
            first,
        )) {
            ChildStep::Probe(ChildProbe::NoNewPrivileges)
        } else {
            ChildStep::Rejected
        },
        (ChildProbe::NoNewPrivileges, ChildObservation::NoNewPrivileges { value }) => if value
            == 1 {
            if identity.require_irreversible_drop {
                ChildStep::Probe(ChildProbe::RegainUser)
            } else {
                ChildStep::Verified
            }
        } else {
            ChildStep::Rejected
        },
        (ChildProbe::RegainUser, ChildObservation::Regain { refused: true }) => ChildStep::Probe(
            ChildProbe::RegainGroup,
        ),
        (ChildProbe::RegainGroup, ChildObservation::Regain { refused: true }) => ChildStep::Probe(
            ChildProbe::RegainSupplementaryGroups,
        ),
        (ChildProbe::RegainSupplementaryGroups, ChildObservation::Regain { refused: true }) =>
        ChildStep::Verified,
        _ => ChildStep::Rejected,
    }
}

/// Judges one observation of the child. It allocates nothing.
pub fn verify_child_identity(
    identity: DropIdentity,
    probe: ChildProbe,
    observed: ChildObservation,
) -> (step: ChildStep)
    ensures
        step == child_step(identity, probe, observed),
{
    match (probe, observed) {
        (ChildProbe::UserAndGroupIds, ChildObservation::Ids { uids, gids }) => {
            if uids.0 != identity.uid || uids.1 != identity.uid || uids.2 != identity.uid || gids.0
                != identity.gid || gids.1 != identity.gid || gids.2 != identity.gid {
                return ChildStep::Rejected;
            }
            if identity.require_irreversible_drop {
                ChildStep::Probe(ChildProbe::SupplementaryGroups)
            } else {
                ChildStep::Probe(ChildProbe::NoNewPrivileges)
            }
        },
        (ChildProbe::SupplementaryGroups, ChildObservation::Groups { count, first }) => {
            let matches_group = match identity.camera_gid {
                Some(expected) => count == 1 && first == expected,
                None => count == 0,
            };
            if matches_group {
                ChildStep::Probe(ChildProbe::NoNewPrivileges)
            } else {
                ChildStep::Rejected
            }
        },
        (ChildProbe::NoNewPrivileges, ChildObservation::NoNewPrivileges { value }) => {
            if value != 1 {
                return ChildStep::Rejected;
            }
            if identity.require_irreversible_drop {
                ChildStep::Probe(ChildProbe::RegainUser)
            } else {
                ChildStep::Verified
            }
        },
        (ChildProbe::RegainUser, ChildObservation::Regain { refused: true }) => ChildStep::Probe(
            ChildProbe::RegainGroup,
        ),
        (ChildProbe::RegainGroup, ChildObservation::Regain { refused: true }) => ChildStep::Probe(
            ChildProbe::RegainSupplementaryGroups,
        ),
        (ChildProbe::RegainSupplementaryGroups, ChildObservation::Regain { refused: true }) =>
        ChildStep::Verified,
        _ => ChildStep::Rejected,
    }
}

/// Where the drop must be irreversible, a child is verified only after its ids,
/// its groups and its want of new privileges have been observed and all three
/// attempts to regain privileges have been refused.
pub proof fn verified_child_cannot_regain_privileges(
    identity: DropIdentity,
    ids: ChildObservation,
    groups: ChildObservation,
    privileges: ChildObservation,
    user: ChildObservation,
    group: ChildObservation,
    supplementary: ChildObservation,
)
    requires
        identity.require_irreversible_drop,
        child_step(identity, ChildProbe::UserAndGroupIds, ids) == ChildStep::Probe(
            ChildProbe::SupplementaryGroups,
        ),
        child_step(identity, ChildProbe::SupplementaryGroups, groups) == ChildStep::Probe(
            ChildProbe::NoNewPrivileges,
        ),
        child_step(identity, ChildProbe::NoNewPrivileges, privileges) == ChildStep::Probe(
            ChildProbe::RegainUser,
        ),
        child_step(identity, ChildProbe::RegainUser, user) == ChildStep::Probe(
            ChildProbe::RegainGroup,
        ),
        child_step(identity, ChildProbe::RegainGroup, group) == ChildStep::Probe(
            ChildProbe::RegainSupplementaryGroups,
        ),
        child_step(identity, ChildProbe::RegainSupplementaryGroups, supplementary)
            == ChildStep::Verified,
    ensures
        ids == (ChildObservation::Ids {
            uids: (identity.uid, identity.uid, identity.uid),
            gids: (identity.gid, identity.gid, identity.gid),
        }),
        groups matches ChildObservation::Groups { count, first } && (match identity.camera_gid {
            Some(camera) => count == 1 && first == camera,
            None => count == 0,
        }),
        privileges == (ChildObservation::NoNewPrivileges { value: 1 }),
        user == (ChildObservation::Regain { refused: true }),
        group == (ChildObservation::Regain { refused: true }),
        supplementary == (ChildObservation::Regain { refused: true }),
{
}

/// How opening a path that must be closed to the child went.
#[derive(Clone, Copy, Debug, PartialEq, Eq, Structural)]
pub enum AccessAttempt {
    Opened,
    Denied,
    FailedOtherwise,
}

/// Only a denial shows that a path is inaccessible.
pub fn verify_inaccessible(attempt: AccessAttempt) -> (inaccessible: bool)
    ensures
        inaccessible == (attempt == AccessAttempt::Denied),
{
    match attempt {
        AccessAttempt::Denied => true,
        AccessAttempt::Opened | AccessAttempt::FailedOtherwise => false,
    }
}

/// The steps between fork and exec, in order.
#[derive(Clone, Copy, Debug, PartialEq, Eq, Structural)]
pub enum PreExecStep {
    SetParentDeathSignal,
    CheckParent,
    ForbidNewPrivileges,
    CloseDescriptorsOnExec,
    KeepCameraDescriptor,
    SetGroups { camera_gid: Option<u32> },
    SetGroup { gid: u32 },
    SetUser { uid: u32 },
    VerifyIdentity,
    ReopenCamera,
    VerifyDirectoryInaccessible,
    VerifyCredentialInaccessible,
    RestoreParentDeathSignal,
}

/// The steps that a child of `identity` takes before exec: privileges go
/// groups first and user last, the result is verified, and only then is the
/// camera reopened and the credential shown to be out of reach.
pub open spec fn pre_exec_steps(identity: DropIdentity, probes_credential: bool) -> Seq<
    PreExecStep,
> {
    let start = seq![
        PreExecStep::SetParentDeathSignal,
        PreExecStep::CheckParent,
        PreExecStep::ForbidNewPrivileges,
        PreExecStep::CloseDescriptorsOnExec,
        PreExecStep::KeepCameraDescriptor,
    ];
    let dropping = if identity.require_irreversible_drop {
        seq![
            PreExecStep::SetGroups { camera_gid: identity.camera_gid },
            PreExecStep::SetGroup { gid: identity.gid },
            PreExecStep::SetUser { uid: identity.uid },
        ]
    } else {
        seq![]
    };
    let verifying = seq![PreExecStep::VerifyIdentity, PreExecStep::ReopenCamera];
    let probing = if probes_credential {
        seq![PreExecStep::VerifyDirectoryInaccessible, PreExecStep::VerifyCredentialInaccessible]
    } else {
        seq![]
    };
    start + dropping + verifying + probing + seq![PreExecStep::RestoreParentDeathSignal]
}

/// A step that gives privileges up.
pub open spec fn is_dropping(step: PreExecStep) -> bool {
    step is SetGroups || step is SetGroup || step is SetUser
}

/// A step that looks at, or opens, what the child may and may not reach.
pub open spec fn is_probing(step: PreExecStep) -> bool {
    step is VerifyIdentity || step is ReopenCamera || step is VerifyDirectoryInaccessible
        || step is VerifyCredentialInaccessible
}

/// A child that has to drop its privileges gives up its groups, its group and
/// its user, in this order, and every probe comes behind all of them; new
/// privileges are forbidden and descriptors closed before, and the signal that
/// ends the child with its parent is set again last.
pub proof fn privileges_go_before_anything_is_opened(
    identity: DropIdentity,
    probes_credential: bool,
)
    ensures
        ({
            let plan = pre_exec_steps(identity, probes_credential);
            &&& plan[2] == PreExecStep::ForbidNewPrivileges
            &&& plan[3] == PreExecStep::CloseDescriptorsOnExec
            &&& identity.require_irreversible_drop ==> plan[5] == (PreExecStep::SetGroups {
                camera_gid: identity.camera_gid,
            }) && plan[6] == (PreExecStep::SetGroup { gid: identity.gid }) && plan[7] == (
            PreExecStep::SetUser { uid: identity.uid })
            &&& forall|i: int, j: int|
                0 <= i < plan.len() && 0 <= j < plan.len() && is_probing(#[trigger] plan[i])
                    && is_dropping(#[trigger] plan[j]) ==> j < i
            &&& plan.contains(PreExecStep::VerifyIdentity)
            &&& probes_credential ==> plan.contains(PreExecStep::VerifyDirectoryInaccessible)
                && plan.contains(PreExecStep::VerifyCredentialInaccessible)
            &&& plan.last() == PreExecStep::RestoreParentDeathSignal
        }),
{
    let plan = pre_exec_steps(identity, probes_credential);
    let verified: int = if identity.require_irreversible_drop {
        8
    } else {
        5
    };
    assert(plan[verified] == PreExecStep::VerifyIdentity);
    if probes_credential {
        assert(plan[verified + 2] == PreExecStep::VerifyDirectoryInaccessible);
        assert(plan[verified + 3] == PreExecStep::VerifyCredentialInaccessible);
    }
}

/// Plans the steps before exec, so that the child only has to follow them.
pub fn child_pre_exec(identity: DropIdentity, probes_credential: bool) -> (plan: Vec<PreExecStep>)
    ensures
        plan@ == pre_exec_steps(identity, probes_credential),
{
    let mut plan: Vec<PreExecStep> = Vec::new();
    plan.push(PreExecStep::SetParentDeathSignal);
    plan.push(PreExecStep::CheckParent);
    plan.push(PreExecStep::ForbidNewPrivileges);
    plan.push(PreExecStep::CloseDescriptorsOnExec);
    plan.push(PreExecStep::KeepCameraDescriptor);
    if identity.require_irreversible_drop {
        plan.push(PreExecStep::SetGroups { camera_gid: identity.camera_gid });
        plan.push(PreExecStep::SetGroup { gid: identity.gid });
        plan.push(PreExecStep::SetUser { uid: identity.uid });
    }
    plan.push(PreExecStep::VerifyIdentity);
    plan.push(PreExecStep::ReopenCamera);
    if probes_credential {
        plan.push(PreExecStep::VerifyDirectoryInaccessible);
        plan.push(PreExecStep::VerifyCredentialInaccessible);
    }
    plan.push(PreExecStep::RestoreParentDeathSignal);
    assert(plan@ =~= pre_exec_steps(identity, probes_credential));
    plan
}

/// Acceptable metadata of the fixed executable: root's, regular, executable
/// and writable by nobody else.
pub fn validate_executable_metadata(is_file: bool, owner: u32, raw_mode: u32) -> (result: Result<
    (),
    ChildPolicyError,
>)
    ensures
        result == (if is_file && owner == 0 && (raw_mode & 0o7777u32) & 0o111u32 != 0 && (raw_mode
            & 0o7777u32) & 0o022u32 == 0 {
            Ok(())
        } else {
            Err(ChildPolicyError::ExecutableRejected)
        }),
{
    let mode: u32 = raw_mode & 0o7777;
    if !is_file || owner != 0 || mode & 0o111 == 0 || mode & 0o022 != 0 {
        return Err(ChildPolicyError::ExecutableRejected);
    }
    Ok(())
}

pub fn validate_absolute_path(path: &[u8]) -> (result: Result<(), ChildPolicyError>)
    ensures
        result == (if strict_absolute(path@) {
            Ok(())
        } else {
            Err(ChildPolicyError::AmbiguousPath)
        }),
{
    if is_strict_absolute(path) {
        Ok(())
    } else {
        Err(ChildPolicyError::AmbiguousPath)
    }
}

/// The paths that must be out of the child's reach.
#[derive(Debug)]
pub struct CredentialProbe {
    pub directory: Vec<u8>,
    pub credential: Vec<u8>,
}

/// The credential stands in the delivery directory under its fixed name.
pub fn credential_probe(directory: Option<&[u8]>) -> (probe: Result<
    CredentialProbe,
    ChildPolicyError,
>)
    ensures
        match directory {
            None => probe == Err::<CredentialProbe, ChildPolicyError>(
                ChildPolicyError::DirectoryUnavailable,
            ),
            Some(path) => if strict_absolute(path@) {
                probe matches Ok(paths) && paths.directory@ == path@ && paths.credential@ == path@
                    + seq![47u8] + encode_utf8("howy.storage.mode1.epoch1"@)
            } else {
                probe == Err::<CredentialProbe, ChildPolicyError>(ChildPolicyError::AmbiguousPath)
            },
        },
{
    match directory {
        None => Err(ChildPolicyError::DirectoryUnavailable),
        Some(path) => {
            match validate_absolute_path(path) {
                Err(error) => {
                    return Err(error);
                },
                Ok(()) => {},
            }
            let kept = vstd::slice::slice_to_vec(path);
            let mut credential = vstd::slice::slice_to_vec(path);
            credential.push(47);
            let name = "howy.storage.mode1.epoch1".as_bytes();
            credential.extend_from_slice(name);
            assert(kept@ =~= path@);
            assert(credential@ =~= path@ + seq![47u8] + name@);
            Ok(CredentialProbe { directory: kept, credential })
        },
    }
}

/// Child policy prepared before the listener or the camera is used.
#[derive(Debug)]
pub struct DaemonChildPolicy {
    executable: bool,
    identity: Option<DropIdentity>,
    credential_probe: Option<CredentialProbe>,
    mode: EmbeddingSecurityMode,
}

/// A camera that has been opened for the child, by its descriptor.
#[derive(Clone, Copy, Debug, PartialEq, Eq, Structural)]
pub struct PreparedCameraFd {
    pub descriptor: u32,
    pub identity: DropIdentity,
}

impl PreparedCameraFd {
    /// The path under which the child reopens the camera.
    pub fn child_path(&self) -> (path: String)
        ensures
            path@ == "/proc/self/fd/"@ + decimal(self.descriptor as nat),
    {
        let mut path = "/proc/self/fd/".to_owned();
        push_decimal(&mut path, self.descriptor as u64);
        path
    }
}

impl DaemonChildPolicy {
    pub closed spec fn has_executable(&self) -> bool {
        self.executable
    }

    pub closed spec fn drop_identity(&self) -> Option<DropIdentity> {
        self.identity
    }

    pub closed spec fn probe(&self) -> Option<CredentialProbe> {
        self.credential_probe
    }

    pub open spec fn probes_credential(&self) -> bool {
        self.probe() is Some
    }

    pub closed spec fn security_mode(&self) -> EmbeddingSecurityMode {
        self.mode
    }

    /// Everything that an isolated child needs is there.
    pub open spec fn available(&self) -> bool {
        self.has_executable() && self.drop_identity() is Some && (self.security_mode()
            == EmbeddingSecurityMode::AeadCached ==> self.probes_credential())
    }

    /// The policy for a storage mode; only the cached mode has a credential to
    /// be kept from the child. Whatever could not be had disables the child alone.
    pub fn for_mode(
        mode: EmbeddingSecurityMode,
        executable_valid: bool,
        identity: Result<DropIdentity, AccountError>,
        probe: Result<CredentialProbe, ChildPolicyError>,
    ) -> (policy: Self)
        ensures
            policy.security_mode() == mode,
            policy.has_executable() == executable_valid,
            policy.drop_identity() == (match identity {
                Ok(known) => Some(known),
                Err(_) => None,
            }),
            policy.probe() == (match probe {
                Ok(paths) if mode == EmbeddingSecurityMode::AeadCached => Some(paths),
                _ => None,
            }),
    {
        let credential_probe = if mode == EmbeddingSecurityMode::AeadCached {
            probe.ok()
        } else {
            None
        };
        DaemonChildPolicy { executable: executable_valid, identity: identity.ok(), credential_probe, mode }
    }

    pub fn ffmpeg_available(&self) -> (available: bool)
        ensures
            available == self.available(),
    {
        self.executable && self.identity.is_some() && (self.mode
            != EmbeddingSecurityMode::AeadCached || self.credential_probe.is_some())
    }

    /// The variables that the child gets, by name and value: nothing of the
    /// daemon's environment reaches it, nor anything else.
    pub fn environment(&self) -> (variables: Vec<(Vec<u8>, Vec<u8>)>)
        ensures
            variables@.len() == 0,
    {
        Vec::new()
    }

    /// The paths to probe for, where the policy has them.
    pub fn credential_paths(&self) -> (paths: Option<&CredentialProbe>)
        ensures
            paths == (match self.probe() {
                Some(probe) => Some(&probe),
                None => None,
            }),
    {
        self.credential_probe.as_ref()
    }

    /// Accepts a camera that has been opened for the child.
    pub fn open_camera(
        &self,
        descriptor: u32,
        is_char_device: bool,
        owner: u32,
        group: u32,
        raw_mode: u32,
    ) -> (camera: Result<PreparedCameraFd, ChildPolicyError>)
        ensures
            camera == (if !self.available() {
                Err(ChildPolicyError::Unavailable)
            } else if !is_char_device {
                Err(ChildPolicyError::NotCharacterDevice)
            } else if reopens_without_group(self.drop_identity()->0, owner, group, raw_mode) {
                Ok(
                    PreparedCameraFd {
                        descriptor,
                        identity: DropIdentity { camera_gid: None, ..self.drop_identity()->0 },
                    },
                )
            } else if reopens_with_group(self.drop_identity()->0, group, raw_mode) {
                Ok(
                    PreparedCameraFd {
                        descriptor,
                        identity: DropIdentity {
                            camera_gid: Some(group),
                            ..self.drop_identity()->0
                        },
                    },
                )
            } else {
                Err(ChildPolicyError::CameraNotReopenable)
            }),
    {
        if !self.ffmpeg_available() {
            return Err(ChildPolicyError::Unavailable);
        }
        if !is_char_device {
            return Err(ChildPolicyError::NotCharacterDevice);
        }
        let base: DropIdentity = match self.identity {
            Some(identity) => identity,
            None => {
                return Err(ChildPolicyError::IdentityUnavailable);
            },
        };
        match identity_for_camera_metadata(base, owner, group, raw_mode) {
            Ok(identity) => Ok(PreparedCameraFd { descriptor, identity }),
            Err(error) => Err(error),
        }
    }

    /// Plans the child for a camera, unless something it needs is missing.
    pub fn spawn_ffmpeg(&self, camera: PreparedCameraFd) -> (plan: Result<
        Vec<PreExecStep>,
        ChildPolicyError,
    >)
        ensures
            match plan {
                Ok(steps) => self.has_executable() && (self.security_mode()
                    == EmbeddingSecurityMode::AeadCached ==> self.probes_credential()) && steps@
                    == pre_exec_steps(camera.identity, self.probes_credential()),
                Err(ChildPolicyError::ExecutableUnavailable) => !self.has_executable(),
                Err(ChildPolicyError::CredentialProbeUnavailable) => self.has_executable()
                    && self.security_mode() == EmbeddingSecurityMode::AeadCached
                    && !self.probes_credential(),
                Err(_) => false,
            },
    {
        if !self.executable {
            return Err(ChildPolicyError::ExecutableUnavailable);
        }
        if self.mode == EmbeddingSecurityMode::AeadCached && self.credential_probe.is_none() {
            return Err(ChildPolicyError::CredentialProbeUnavailable);
        }
        Ok(child_pre_exec(camera.identity, self.credential_probe.is_some()))
    }
}


/// A user entry is that of the dedicated account, as it is packaged.
pub open spec fn is_packaged_user(record: PasswdRecord, uid: u32, gid: u32) -> bool {
    &&& record.name@ == encode_utf8("howy-ffmpeg"@)
    &&& record.password@ == encode_utf8("x"@)
    &&& record.uid == uid && uid != 0 && uid != 65534
    &&& record.gid == gid && gid != 0 && gid != 65534
    &&& record.gecos@ == encode_utf8("Howy FFmpeg sandbox"@)
    &&& record.home@ == encode_utf8("/"@)
    &&& record.shell@ == encode_utf8("/usr/bin/nologin"@)
}

/// A group entry is the private group of the dedicated account.
pub open spec fn is_packaged_group(record: GroupRecord, gid: u32) -> bool {
    &&& record.name@ == encode_utf8("howy-ffmpeg"@)
    &&& record.password@ == encode_utf8("x"@)
    &&& record.gid == gid
    &&& !record.has_members
}

/// A shadow entry locks the dedicated account: no password fits, it has long expired,
/// and nothing ages.
pub open spec fn is_packaged_shadow(record: ShadowRecord) -> bool {
    &&& record.name@ == encode_utf8("howy-ffmpeg"@)
    &&& record.password@ == encode_utf8("!*"@)
    &&& record.last_change >= 0 && record.expire == 1
    &&& record.minimum == -1 && record.maximum == -1
    &&& record.warning == -1 && record.inactive == -1
    &&& record.flag == 0xffff_ffff_ffff_ffff
}

proof fn users_are_scanned(records: Seq<PasswdRecord>, count: nat, uid: u32, gid: u32)
    requires
        count <= records.len(),
    ensures
        passwd_scan(records, count) == Ok::<Option<(u32, u32)>, AccountError>(None) <==> forall|
            i: int,
        |
            0 <= i < count ==> (#[trigger] records[i]).name@ != encode_utf8("howy-ffmpeg"@),
        passwd_scan(records, count) == Ok::<Option<(u32, u32)>, AccountError>(Some((uid, gid)))
            <==> exists|at: int|
            0 <= at < count && is_packaged_user(#[trigger] records[at], uid, gid) && forall|i: int|
                0 <= i < count && i != at ==> (#[trigger] records[i]).name@ != encode_utf8(
                    "howy-ffmpeg"@,
                ),
    decreases count,
{
    if count > 0 {
        let last = count - 1;
        users_are_scanned(records, last as nat, uid, gid);
        let record = records[last];
        let before = passwd_scan(records, last as nat);
        if record.name@ == encode_utf8("howy-ffmpeg"@) {
            assert(record.is_account());
            if passwd_scan(records, count) == Ok::<Option<(u32, u32)>, AccountError>(
                Some((uid, gid)),
            ) {
                assert(before == Ok::<Option<(u32, u32)>, AccountError>(None));
                assert(is_packaged_user(records[last], uid, gid));
            }
            if exists|at: int|
                0 <= at < count && is_packaged_user(#[trigger] records[at], uid, gid) && forall|
                    i: int,
                |
                    0 <= i < count && i != at ==> (#[trigger] records[i]).name@ != encode_utf8(
                        "howy-ffmpeg"@,
                    ) {
                let at = choose|at: int|
                    0 <= at < count && is_packaged_user(#[trigger] records[at], uid, gid)
                        && forall|i: int|
                        0 <= i < count && i != at ==> (#[trigger] records[i]).name@
                            != encode_utf8("howy-ffmpeg"@);
                assert(at == last);
                assert(before == Ok::<Option<(u32, u32)>, AccountError>(None));
            }
        } else {
            assert(!record.is_account());
            if before == Ok::<Option<(u32, u32)>, AccountError>(Some((uid, gid))) {
                let at = choose|at: int|
                    0 <= at < last && is_packaged_user(#[trigger] records[at], uid, gid)
                        && forall|i: int|
                        0 <= i < last && i != at ==> (#[trigger] records[i]).name@
                            != encode_utf8("howy-ffmpeg"@);
                assert(is_packaged_user(records[at], uid, gid));
            }
            if exists|at: int|
                0 <= at < count && is_packaged_user(#[trigger] records[at], uid, gid) && forall|
                    i: int,
                |
                    0 <= i < count && i != at ==> (#[trigger] records[i]).name@ != encode_utf8(
                        "howy-ffmpeg"@,
                    ) {
                let at = choose|at: int|
                    0 <= at < count && is_packaged_user(#[trigger] records[at], uid, gid)
                        && forall|i: int|
                        0 <= i < count && i != at ==> (#[trigger] records[i]).name@
                            != encode_utf8("howy-ffmpeg"@);
                assert(at < last && is_packaged_user(records[at], uid, gid));
            }
        }
    }
}

proof fn groups_are_scanned(records: Seq<GroupRecord>, gid: u32, count: nat)
    requires
        count <= records.len(),
    ensures
        group_scan(records, gid, count) == Ok::<bool, AccountError>(false) <==> forall|i: int|
            0 <= i < count ==> (#[trigger] records[i]).name@ != encode_utf8("howy-ffmpeg"@)
                && records[i].gid != gid,
        group_scan(records, gid, count) == Ok::<bool, AccountError>(true) <==> exists|at: int|
            0 <= at < count && is_packaged_group(#[trigger] records[at], gid) && forall|i: int|
                0 <= i < count && i != at ==> (#[trigger] records[i]).name@ != encode_utf8(
                    "howy-ffmpeg"@,
                ) && records[i].gid != gid,
    decreases count,
{
    if count > 0 {
        let last = count - 1;
        groups_are_scanned(records, gid, last as nat);
        let before = group_scan(records, gid, last as nat);
        let all = group_scan(records, gid, count);
        if all == Ok::<bool, AccountError>(true) {
            if before == Ok::<bool, AccountError>(true) {
                let at = choose|at: int|
                    0 <= at < last && is_packaged_group(#[trigger] records[at], gid) && forall|
                        i: int,
                    |
                        0 <= i < last && i != at ==> (#[trigger] records[i]).name@ != encode_utf8(
                            "howy-ffmpeg"@,
                        ) && records[i].gid != gid;
                assert(is_packaged_group(records[at], gid));
            } else {
                assert(is_packaged_group(records[last], gid));
            }
        }
        if exists|at: int|
            0 <= at < count && is_packaged_group(#[trigger] records[at], gid) && forall|i: int|
                0 <= i < count && i != at ==> (#[trigger] records[i]).name@ != encode_utf8(
                    "howy-ffmpeg"@,
                ) && records[i].gid != gid {
            let at = choose|at: int|
                0 <= at < count && is_packaged_group(#[trigger] records[at], gid) && forall|i: int|
                    0 <= i < count && i != at ==> (#[trigger] records[i]).name@ != encode_utf8(
                        "howy-ffmpeg"@,
                    ) && records[i].gid != gid;
            if at < last {
                assert(is_packaged_group(records[at], gid));
                assert(before == Ok::<bool, AccountError>(true));
            } else {
                assert(before == Ok::<bool, AccountError>(false));
            }
        }
    }
}

proof fn shadows_are_scanned(records: Seq<ShadowRecord>, count: nat)
    requires
        count <= records.len(),
    ensures
        shadow_scan(records, count) == Ok::<bool, AccountError>(false) <==> forall|i: int|
            0 <= i < count ==> (#[trigger] records[i]).name@ != encode_utf8("howy-ffmpeg"@),
        shadow_scan(records, count) == Ok::<bool, AccountError>(true) <==> exists|at: int|
            0 <= at < count && is_packaged_shadow(#[trigger] records[at]) && forall|i: int|
                0 <= i < count && i != at ==> (#[trigger] records[i]).name@ != encode_utf8(
                    "howy-ffmpeg"@,
                ),
    decreases count,
{
    if count > 0 {
        let last = count - 1;
        shadows_are_scanned(records, last as nat);
        let before = shadow_scan(records, last as nat);
        let all = shadow_scan(records, count);
        if all == Ok::<bool, AccountError>(true) {
            if before == Ok::<bool, AccountError>(true) {
                let at = choose|at: int|
                    0 <= at < last && is_packaged_shadow(#[trigger] records[at]) && forall|i: int|
                        0 <= i < last && i != at ==> (#[trigger] records[i]).name@ != encode_utf8(
                            "howy-ffmpeg"@,
                        );
                assert(is_packaged_shadow(records[at]));
            } else {
                assert(is_packaged_shadow(records[last]));
            }
        }
        if exists|at: int|
            0 <= at < count && is_packaged_shadow(#[trigger] records[at]) && forall|i: int|
                0 <= i < count && i != at ==> (#[trigger] records[i]).name@ != encode_utf8(
                    "howy-ffmpeg"@,
                ) {
            let at = choose|at: int|
                0 <= at < count && is_packaged_shadow(#[trigger] records[at]) && forall|i: int|
                    0 <= i < count && i != at ==> (#[trigger] records[i]).name@ != encode_utf8(
                        "howy-ffmpeg"@,
                    );
            if at < last {
                assert(is_packaged_shadow(records[at]));
                assert(before == Ok::<bool, AccountError>(true));
            } else {
                assert(before == Ok::<bool, AccountError>(false));
            }
        }
    }
}

/// The dedicated account is accepted exactly where each of the three databases has one
/// entry of its name, each as it is packaged, no other user has its user or group id,
/// and no other group has its group id.
pub proof fn accounts_are_accepted_as_packaged(
    passwd: Seq<PasswdRecord>,
    group: Seq<GroupRecord>,
    shadow: Seq<ShadowRecord>,
    uid: u32,
    gid: u32,
)
    ensures
        local_account(passwd, group, shadow) == Ok::<(u32, u32), AccountError>((uid, gid)) <==> {
            &&& exists|at: int|
                0 <= at < passwd.len() && is_packaged_user(#[trigger] passwd[at], uid, gid)
                    && forall|i: int|
                    0 <= i < passwd.len() && i != at ==> (#[trigger] passwd[i]).name@
                        != encode_utf8("howy-ffmpeg"@) && passwd[i].uid != uid && passwd[i].gid
                        != gid
            &&& exists|at: int|
                0 <= at < group.len() && is_packaged_group(#[trigger] group[at], gid) && forall|
                    i: int,
                |
                    0 <= i < group.len() && i != at ==> (#[trigger] group[i]).name@ != encode_utf8(
                        "howy-ffmpeg"@,
                    ) && group[i].gid != gid
            &&& exists|at: int|
                0 <= at < shadow.len() && is_packaged_shadow(#[trigger] shadow[at]) && forall|
                    i: int,
                |
                    0 <= i < shadow.len() && i != at ==> (#[trigger] shadow[i]).name@
                        != encode_utf8("howy-ffmpeg"@)
        },
{
    users_are_scanned(passwd, passwd.len(), uid, gid);
    groups_are_scanned(group, gid, group.len());
    shadows_are_scanned(shadow, shadow.len());
    if local_account(passwd, group, shadow) == Ok::<(u32, u32), AccountError>((uid, gid)) {
        let at = choose|at: int|
            0 <= at < passwd.len() && is_packaged_user(#[trigger] passwd[at], uid, gid) && forall|
                i: int,
            |
                0 <= i < passwd.len() && i != at ==> (#[trigger] passwd[i]).name@ != encode_utf8(
                    "howy-ffmpeg"@,
                );
        assert(is_packaged_user(passwd[at], uid, gid));
        assert forall|i: int| 0 <= i < passwd.len() && i != at implies (#[trigger] passwd[i]).name@
            != encode_utf8("howy-ffmpeg"@) && passwd[i].uid != uid && passwd[i].gid != gid by {
            assert(!passwd[i].is_account());
        }
    }
    if exists|at: int|
        0 <= at < passwd.len() && is_packaged_user(#[trigger] passwd[at], uid, gid) && forall|
            i: int,
        |
            0 <= i < passwd.len() && i != at ==> (#[trigger] passwd[i]).name@ != encode_utf8(
                "howy-ffmpeg"@,
            ) && passwd[i].uid != uid && passwd[i].gid != gid {
        let at = choose|at: int|
            0 <= at < passwd.len() && is_packaged_user(#[trigger] passwd[at], uid, gid) && forall|
                i: int,
            |
                0 <= i < passwd.len() && i != at ==> (#[trigger] passwd[i]).name@ != encode_utf8(
                    "howy-ffmpeg"@,
                ) && passwd[i].uid != uid && passwd[i].gid != gid;
        assert(is_packaged_user(passwd[at], uid, gid));
        assert(!shares_ids(passwd, uid, gid)) by {
            if shares_ids(passwd, uid, gid) {
                let i = choose|i: int|
                    0 <= i < passwd.len() && !(#[trigger] passwd[i]).is_account() && (passwd[i].uid
                        == uid || passwd[i].gid == gid);
                assert(i != at);
            }
        }
    }
}

/// The child's plan, step by step: it dies with its parent, which is still there, gets
/// no privileges back, and keeps no descriptor but the camera's; then it drops to the
/// groups, the group and the user it is given, where it has to; and then it shows who it
/// is, opens the camera, and finds the credential closed where it has to.
pub proof fn plans_keep_their_steps(identity: DropIdentity, probes_credential: bool)
    ensures
        ({
            let plan = pre_exec_steps(identity, probes_credential);
            let dropped: int = if identity.require_irreversible_drop {
                3
            } else {
                0
            };
            let probed: int = if probes_credential {
                2
            } else {
                0
            };
            &&& plan.len() == 8 + dropped + probed
            &&& plan[0] is SetParentDeathSignal && plan[1] is CheckParent
            &&& plan[2] is ForbidNewPrivileges && plan[3] is CloseDescriptorsOnExec
            &&& plan[4] is KeepCameraDescriptor
            &&& dropped == 3 ==> plan[5]->camera_gid == identity.camera_gid && plan[5] is SetGroups
            &&& dropped == 3 ==> plan[6] is SetGroup && plan[6]->gid == identity.gid
            &&& dropped == 3 ==> plan[7] is SetUser && plan[7]->uid == identity.uid
            &&& plan[5 + dropped] is VerifyIdentity && plan[6 + dropped] is ReopenCamera
            &&& probed == 2 ==> plan[7 + dropped] is VerifyDirectoryInaccessible && plan[8
                + dropped] is VerifyCredentialInaccessible
            &&& plan[7 + dropped + probed] is RestoreParentDeathSignal
        }),
{
}

/// A camera can be opened again without a further group exactly where the child may both
/// read and write it as its owner, as its group or as anybody, and with the camera's
/// group where that may and is neither privileged, nor shared, nor the child's own.
pub proof fn cameras_are_opened_for_reading_and_writing(
    identity: DropIdentity,
    owner: u32,
    group: u32,
    raw_mode: u32,
)
    ensures
        reopens_without_group(identity, owner, group, raw_mode) <==> {
            ||| owner == identity.uid && raw_mode & 0o400 != 0 && raw_mode & 0o200 != 0
            ||| group == identity.gid && raw_mode & 0o040 != 0 && raw_mode & 0o020 != 0
            ||| raw_mode & 0o004 != 0 && raw_mode & 0o002 != 0
        },
        reopens_with_group(identity, group, raw_mode) <==> raw_mode & 0o040 != 0 && raw_mode & 0o020
            != 0 && group != 0 && group != 65534 && group != identity.gid,
{
    assert((raw_mode & 0o777) & 0o600 == 0o600 <==> raw_mode & 0o400 != 0 && raw_mode & 0o200 != 0)
        by (bit_vector);
    assert((raw_mode & 0o777) & 0o060 == 0o060 <==> raw_mode & 0o040 != 0 && raw_mode & 0o020 != 0)
        by (bit_vector);
    assert((raw_mode & 0o777) & 0o006 == 0o006 <==> raw_mode & 0o004 != 0 && raw_mode & 0o002 != 0)
        by (bit_vector);
}

/// A child is verified exactly where all of its user and group ids are those it was
/// given, it has no group but the camera's, gets no new privileges, and cannot go back.
pub proof fn children_are_verified_in_turn(identity: DropIdentity)
    requires
        identity.require_irreversible_drop,
    ensures
        forall|uids: (u32, u32, u32), gids: (u32, u32, u32)|
            #![trigger child_step(identity, ChildProbe::UserAndGroupIds, ChildObservation::Ids { uids, gids })]
            child_step(
                identity,
                ChildProbe::UserAndGroupIds,
                ChildObservation::Ids { uids, gids },
            ) == (if uids.0 == identity.uid && uids.1 == identity.uid && uids.2 == identity.uid
                && gids.0 == identity.gid && gids.1 == identity.gid && gids.2 == identity.gid {
                ChildStep::Probe(ChildProbe::SupplementaryGroups)
            } else {
                ChildStep::Rejected
            }),
        forall|count: i64, first: u32|
            #![trigger child_step(identity, ChildProbe::SupplementaryGroups, ChildObservation::Groups { count, first })]
            child_step(
                identity,
                ChildProbe::SupplementaryGroups,
                ChildObservation::Groups { count, first },
            ) == (if (identity.camera_gid is None && count == 0) || (count == 1
                && identity.camera_gid == Some(first)) {
                ChildStep::Probe(ChildProbe::NoNewPrivileges)
            } else {
                ChildStep::Rejected
            }),
        forall|value: i32|
            #![trigger child_step(identity, ChildProbe::NoNewPrivileges, ChildObservation::NoNewPrivileges { value })]
            child_step(
                identity,
                ChildProbe::NoNewPrivileges,
                ChildObservation::NoNewPrivileges { value },
            ) == (if value == 1 {
                ChildStep::Probe(ChildProbe::RegainUser)
            } else {
                ChildStep::Rejected
            }),
        forall|probe: ChildProbe, observed: ChildObservation| #[trigger]
            child_step(identity, probe, observed) == ChildStep::Verified ==> probe
                == ChildProbe::RegainSupplementaryGroups && observed == (ChildObservation::Regain {
                refused: true,
            }),
        forall|probe: ChildProbe| #[trigger]
            child_step(identity, probe, ChildObservation::Failed) == ChildStep::Rejected,
        forall|probe: ChildProbe| #[trigger]
            child_step(identity, probe, ChildObservation::Regain { refused: false })
                == ChildStep::Rejected,
{
}


/// An account conforms exactly where it is the packaged one: neither privileged nor
/// shared, of the one name, with nowhere to go and nothing to run, and alone in its group.
pub proof fn conforming_accounts_are_packaged(
    uid: u32,
    gid: u32,
    name: Seq<u8>,
    gecos: Seq<u8>,
    home: Seq<u8>,
    shell: Seq<u8>,
    has_members: bool,
)
    ensures
        conforming_identity(uid, gid, name, gecos, home, shell, has_members) <==> {
            &&& uid != 0 && uid != 65534 && gid != 0 && gid != 65534
            &&& name == encode_utf8("howy-ffmpeg"@)
            &&& gecos == encode_utf8("Howy FFmpeg sandbox"@)
            &&& home == encode_utf8("/"@)
            &&& shell == encode_utf8("/usr/bin/nologin"@)
            &&& !has_members
        },
{
}

/// An account is confirmed in five lookups, each of which has to bear out the others: the
/// user, the user's group, both names the other way round, and that the user has no
/// other group. The identity is the one that was found locally.
pub proof fn identities_are_confirmed_lookup_by_lookup(
    lookup: IdentityLookup,
    step: IdentityStep,
    group: GroupRecord,
    name: Vec<u8>,
    count: i32,
    first: u32,
)
    requires
        lookup.wf(),
    ensures
        lookup.stage == IdentityStage::LookUpGroup && lookup.following(
            IdentityReply::Group(group),
            step,
        ) ==> (step is Perform <==> group.gid == lookup.found->0.gid && group.name@ == encode_utf8(
            "howy-ffmpeg"@,
        ) && lookup.found->0.conforms(group.has_members)),
        lookup.stage == IdentityStage::ReverseUser && lookup.following(
            IdentityReply::Name(name),
            step,
        ) ==> (step is Perform <==> name@ == encode_utf8("howy-ffmpeg"@)),
        lookup.stage == IdentityStage::ReverseGroup && lookup.following(
            IdentityReply::Name(name),
            step,
        ) ==> (step is Perform <==> name@ == encode_utf8("howy-ffmpeg"@)),
        lookup.stage == IdentityStage::ReverseUser && lookup.following(
            IdentityReply::Name(name),
            step,
        ) ==> (step matches IdentityStep::Perform(next) ==> next.stage
            == IdentityStage::ReverseGroup && next.found == lookup.found && next.local
            == lookup.local),
        lookup.stage == IdentityStage::ReverseGroup && lookup.following(
            IdentityReply::Name(name),
            step,
        ) ==> (step matches IdentityStep::Perform(next) ==> next.stage == IdentityStage::ListGroups
            && next.found == lookup.found && next.local == lookup.local),
        lookup.stage == IdentityStage::ListGroups && lookup.following(
            IdentityReply::Groups { count, first },
            step,
        ) ==> (step == IdentityStep::Finished(
            Ok::<DropIdentity, AccountError>(
                DropIdentity {
                    uid: lookup.local.0,
                    gid: lookup.local.1,
                    camera_gid: None,
                    require_irreversible_drop: true,
                },
            ),
        ) <==> count == 1 && first == lookup.found->0.gid && lookup.found->0.uid == lookup.local.0
            && lookup.found->0.gid == lookup.local.1),
{
}

/// An isolated child can be had exactly where there is a program to run, an identity to
/// drop to, and, where a key is cached, the paths that it must not reach.
pub proof fn children_need_what_isolates_them(policy: DaemonChildPolicy)
    ensures
        policy.available() <==> {
            &&& policy.has_executable()
            &&& policy.drop_identity() is Some
            &&& policy.security_mode() == EmbeddingSecurityMode::AeadCached ==> policy.probe()
                is Some
        },
{
}

} // verus!
