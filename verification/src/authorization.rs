//! Request authorization and canonical identity resolution.
use crate::text::{str_eq, utf8_text};
use vstd::prelude::*;
use vstd::utf8::*;

verus! {

pub const DEFAULT_NSS_BUFFER_SIZE: usize = 16384;

pub const MAX_NSS_BUFFER_SIZE: usize = 1048576;

/// What an identity holds: the canonical user name and the user id.
pub struct IdentityView {
    pub username: Seq<char>,
    pub uid: u32,
}

/// Canonical identity returned by the name service for an authorized target.
#[derive(Clone, Debug, PartialEq, Eq)]
pub struct CanonicalIdentity {
    username: String,
    uid: u32,
}

impl View for CanonicalIdentity {
    type V = IdentityView;

    closed spec fn view(&self) -> IdentityView {
        IdentityView { username: self.username@, uid: self.uid }
    }
}

impl CanonicalIdentity {
    pub fn new(username: &str, uid: u32) -> (identity: Self)
        ensures
            identity@ == (IdentityView { username: username@, uid }),
    {
        CanonicalIdentity { username: username.to_owned(), uid }
    }

    pub fn username(&self) -> (username: &str)
        ensures
            username@ == self@.username,
    {
        self.username.as_str()
    }

    pub fn uid(&self) -> (uid: u32)
        ensures
            uid == self@.uid,
    {
        self.uid
    }
}

/// Name-service failures; request handlers see none of this detail.
#[derive(Clone, Copy, Debug, PartialEq, Eq, Structural)]
pub enum IdentityLookupError {
    System(i32),
    InvalidRecord,
    BufferLimit,
}

/// Injectable identity boundary: the lookup itself, and the rule that a user
/// name must meet before it is looked up.
pub trait IdentityResolver {
    fn valid_username(&self, username: &str) -> (valid: bool);

    fn resolve(&self, requested_username: &str) -> (reply: Result<
        Option<CanonicalIdentity>,
        IdentityLookupError,
    >);
}

/// The system name service, asked through a caller-sized buffer.
///
/// The lookup call itself is made by the program; what its outcome means, and
/// how large a buffer the next attempt gets, is decided here.
#[derive(Clone, Copy, Debug, Default)]
pub struct SystemIdentityResolver;

/// Outcome of one lookup call.
#[derive(Clone, Copy, Debug)]
pub enum NssEvent<'a> {
    Interrupted,
    BufferTooSmall,
    Failed { status: i32 },
    Missing,
    /// A record was found: the buffer that holds its strings, where in the
    /// buffer its name starts (`None`: before the buffer), and its user id.
    Found { buffer: &'a [u8], name_offset: Option<usize>, uid: u32 },
}

/// What to do after one lookup call.
#[derive(Debug)]
pub enum NssStep {
    Retry { buffer_size: usize },
    Done { reply: Result<Option<CanonicalIdentity>, IdentityLookupError> },
}

/// `name` is the byte string before the first zero byte of `bytes`.
pub open spec fn nul_terminated(bytes: Seq<u8>, name: Seq<u8>) -> bool {
    &&& name.len() < bytes.len()
    &&& bytes[name.len() as int] == 0
    &&& bytes.take(name.len() as int) == name
    &&& forall|i: int| 0 <= i < name.len() ==> name[i] != 0
}

/// `name` is the name of a well-formed record: terminated inside the buffer, in UTF-8.
pub open spec fn record_name(buffer: Seq<u8>, offset: Option<usize>, name: Seq<u8>) -> bool {
    match offset {
        Some(start) => start < buffer.len() && nul_terminated(buffer.skip(start as int), name)
            && valid_utf8(name),
        None => false,
    }
}

/// The buffer size after an attempt with `size` bytes was too small.
pub open spec fn grown(size: usize) -> nat {
    if 2 * size >= MAX_NSS_BUFFER_SIZE {
        MAX_NSS_BUFFER_SIZE as nat
    } else {
        2 * size as nat
    }
}

/// Position of the first zero byte at or after `start`.
fn find_nul(bytes: &[u8], start: usize) -> (end: Option<usize>)
    requires
        start <= bytes.len(),
    ensures
        match end {
            Some(at) => start <= at < bytes.len() && bytes@[at as int] == 0 && (forall|i: int|
                start <= i < at ==> bytes@[i] != 0),
            None => forall|i: int| start <= i < bytes.len() ==> bytes@[i] != 0,
        },
{
    let mut at: usize = start;
    while at < bytes.len()
        invariant
            start <= at <= bytes.len(),
            forall|i: int| start <= i < at ==> bytes@[i] != 0,
        decreases bytes.len() - at,
    {
        if bytes[at] == 0 {
            return Some(at);
        }
        at = at + 1;
    }
    None
}

impl SystemIdentityResolver {
    /// The size of the first buffer, from the size that the system suggests
    /// (not positive: it suggests none).
    pub fn first_buffer_size(suggested: i64) -> (size: usize)
        ensures
            size as int == if suggested <= 0 {
                DEFAULT_NSS_BUFFER_SIZE as int
            } else if suggested > MAX_NSS_BUFFER_SIZE {
                MAX_NSS_BUFFER_SIZE as int
            } else {
                suggested as int
            },
            1 <= size <= MAX_NSS_BUFFER_SIZE,
    {
        if suggested <= 0 {
            DEFAULT_NSS_BUFFER_SIZE
        } else if suggested > 1048576 {
            MAX_NSS_BUFFER_SIZE
        } else {
            suggested as usize
        }
    }

    /// What the outcome of an attempt with `buffer_size` bytes means.
    pub fn step(buffer_size: usize, event: NssEvent<'_>) -> (step: NssStep)
        requires
            buffer_size <= MAX_NSS_BUFFER_SIZE,
        ensures
            match event {
                NssEvent::Interrupted => step == (NssStep::Retry { buffer_size }),
                NssEvent::BufferTooSmall => if buffer_size == MAX_NSS_BUFFER_SIZE {
                    step == (NssStep::Done { reply: Err(IdentityLookupError::BufferLimit) })
                } else {
                    step matches NssStep::Retry { buffer_size: next } && next == grown(buffer_size)
                },
                NssEvent::Failed { status } => step == (NssStep::Done {
                    reply: Err(IdentityLookupError::System(status)),
                }),
                NssEvent::Missing => step == (NssStep::Done { reply: Ok(None) }),
                NssEvent::Found { buffer, name_offset, uid } => match step {
                    NssStep::Done { reply: Ok(Some(identity)) } => exists|name: Seq<u8>| #[trigger]
                        record_name(buffer@, name_offset, name) && identity@ == (IdentityView {
                            username: decode_utf8(name),
                            uid,
                        }),
                    NssStep::Done { reply: Err(IdentityLookupError::InvalidRecord) } => forall|
                        name: Seq<u8>,
                    |
                        !#[trigger] record_name(buffer@, name_offset, name),
                    _ => false,
                },
            },
    {
        match event {
            NssEvent::Interrupted => NssStep::Retry { buffer_size },
            NssEvent::BufferTooSmall => {
                if buffer_size == MAX_NSS_BUFFER_SIZE {
                    NssStep::Done { reply: Err(IdentityLookupError::BufferLimit) }
                } else if buffer_size >= MAX_NSS_BUFFER_SIZE / 2 {
                    NssStep::Retry { buffer_size: MAX_NSS_BUFFER_SIZE }
                } else {
                    NssStep::Retry { buffer_size: buffer_size * 2 }
                }
            },
            NssEvent::Failed { status } => NssStep::Done {
                reply: Err(IdentityLookupError::System(status)),
            },
            NssEvent::Missing => NssStep::Done { reply: Ok(None) },
            NssEvent::Found { buffer, name_offset, uid } => NssStep::Done {
                reply: record_identity(buffer, name_offset, uid),
            },
        }
    }
}

fn record_identity(buffer: &[u8], name_offset: Option<usize>, uid: u32) -> (reply: Result<
    Option<CanonicalIdentity>,
    IdentityLookupError,
>)
    ensures
        match reply {
            Ok(Some(identity)) => exists|name: Seq<u8>| #[trigger]
                record_name(buffer@, name_offset, name) && identity@ == (IdentityView {
                    username: decode_utf8(name),
                    uid,
                }),
            Err(IdentityLookupError::InvalidRecord) => forall|name: Seq<u8>|
                !#[trigger] record_name(buffer@, name_offset, name),
            _ => false,
        },
{
    let start: usize = match name_offset {
        Some(start) => start,
        None => {
            return Err(IdentityLookupError::InvalidRecord);
        },
    };
    if start >= buffer.len() {
        return Err(IdentityLookupError::InvalidRecord);
    }
    let ghost rest = buffer@.skip(start as int);
    let end: usize = match find_nul(buffer, start) {
        Some(end) => end,
        None => {
            assert forall|name: Seq<u8>| !#[trigger] record_name(buffer@, name_offset, name) by {
                assert(name.len() < rest.len() ==> rest[name.len() as int] == buffer@[start
                    + name.len()]);
            }
            return Err(IdentityLookupError::InvalidRecord);
        },
    };
    let bytes = vstd::slice::slice_subrange(buffer, start, end);
    proof {
        assert(rest.take(end - start) =~= bytes@);
        assert(nul_terminated(rest, bytes@));
        assert forall|name: Seq<u8>| #[trigger] record_name(buffer@, name_offset, name) implies name
            == bytes@ by {
            assert(rest[name.len() as int] == buffer@[start + name.len()]);
            if name.len() > end - start {
                assert(name[end - start] == rest.take(name.len() as int)[end - start]);
                assert(rest[end - start] == 0);
            } else if name.len() < end - start {
                assert(buffer@[start + name.len()] != 0);
            }
            assert(name =~= bytes@);
        }
    }
    match utf8_text(bytes) {
        Some(name) => {
            assert(record_name(buffer@, name_offset, bytes@));
            Ok(Some(CanonicalIdentity::new(name.as_str(), uid)))
        },
        None => Err(IdentityLookupError::InvalidRecord),
    }
}

/// Connection state that prompt commit and cancel requests are held to.
#[derive(Clone, Debug, PartialEq, Eq)]
pub enum ConnectionPhase {
    Initial,
    PendingAuth { peer_uid: u32, target: CanonicalIdentity },
    Finished,
}

/// Inputs shared by every authorization decision.
#[derive(Clone, Debug, PartialEq, Eq)]
pub struct AuthorizationContext {
    pub peer_uid: u32,
    pub confirmation_required: bool,
    pub connection_phase: ConnectionPhase,
}

impl AuthorizationContext {
    pub fn initial(peer_uid: u32, confirmation_required: bool) -> (context: Self)
        ensures
            context == (AuthorizationContext {
                peer_uid,
                confirmation_required,
                connection_phase: ConnectionPhase::Initial,
            }),
    {
        AuthorizationContext {
            peer_uid,
            confirmation_required,
            connection_phase: ConnectionPhase::Initial,
        }
    }
}

/// Daemon operations.
#[derive(Clone, Copy, Debug, PartialEq, Eq)]
pub enum Operation<'a> {
    Ping,
    PublicInfo,
    Authenticate { target: &'a str },
    BeginAuth { target: &'a str },
    CommitAuth,
    CancelAuth,
    EnrollmentPresence { target: &'a str },
    CheckCredential { target: &'a str },
    RevokeCredential { target: &'a str },
    Enroll { target: &'a str },
    EnrollBatch { target: &'a str },
    Detect,
    ListEnrollments { target: &'a str },
    RemoveEnrollment { target: &'a str },
    ClearEnrollments { target: &'a str },
    SecurityInfo,
    Reload,
    Shutdown,
    Unknown,
    WrongPhase,
}

impl<'a> Operation<'a> {
    /// The user name that the operation itself names.
    pub open spec fn named_target(self) -> Option<Seq<char>> {
        match self {
            Operation::Authenticate { target } => Some(target@),
            Operation::BeginAuth { target } => Some(target@),
            Operation::EnrollmentPresence { target } => Some(target@),
            Operation::CheckCredential { target } => Some(target@),
            Operation::RevokeCredential { target } => Some(target@),
            Operation::Enroll { target } => Some(target@),
            Operation::EnrollBatch { target } => Some(target@),
            Operation::ListEnrollments { target } => Some(target@),
            Operation::RemoveEnrollment { target } => Some(target@),
            Operation::ClearEnrollments { target } => Some(target@),
            _ => None,
        }
    }

    /// Commit or cancel of a pending prompt.
    pub open spec fn ends_prompt(self) -> bool {
        self is CommitAuth || self is CancelAuth
    }

    /// Operations that a user may perform on their own account.
    pub open spec fn is_self_service(self) -> bool {
        ||| self is Authenticate
        ||| self is BeginAuth
        ||| self is EnrollmentPresence
        ||| self is CheckCredential
        ||| self is RevokeCredential
        ||| self.ends_prompt()
    }

    /// Operations that only root may perform.
    pub open spec fn is_root_only(self) -> bool {
        ||| self is Enroll
        ||| self is EnrollBatch
        ||| self is ListEnrollments
        ||| self is RemoveEnrollment
        ||| self is ClearEnrollments
        ||| self is Detect
        ||| self is SecurityInfo
        ||| self is Reload
        ||| self is Shutdown
    }

    pub fn target(self) -> (target: Option<&'a str>)
        ensures
            target is Some <==> self.named_target() is Some,
            target matches Some(name) ==> self.named_target() == Some(name@),
    {
        match self {
            Operation::Authenticate { target } => Some(target),
            Operation::BeginAuth { target } => Some(target),
            Operation::EnrollmentPresence { target } => Some(target),
            Operation::CheckCredential { target } => Some(target),
            Operation::RevokeCredential { target } => Some(target),
            Operation::Enroll { target } => Some(target),
            Operation::EnrollBatch { target } => Some(target),
            Operation::ListEnrollments { target } => Some(target),
            Operation::RemoveEnrollment { target } => Some(target),
            Operation::ClearEnrollments { target } => Some(target),
            Operation::Ping
            | Operation::PublicInfo
            | Operation::CommitAuth
            | Operation::CancelAuth
            | Operation::Detect
            | Operation::SecurityInfo
            | Operation::Reload
            | Operation::Shutdown
            | Operation::Unknown
            | Operation::WrongPhase => None,
        }
    }
}

#[derive(Clone, Copy, Debug, PartialEq, Eq, Structural)]
pub enum DenialReason {
    InvalidTarget,
    UnknownTarget,
    NonCanonicalTarget,
    IdentityLookupFailed,
    PermissionDenied,
    ConfirmationRequired,
    WrongPhase,
    UnknownOperation,
}

#[derive(Clone, Debug, PartialEq, Eq)]
pub struct Authorization {
    canonical_target: Option<CanonicalIdentity>,
}

impl Authorization {
    /// The identity that the request was authorized for, if it has a target.
    pub closed spec fn target(&self) -> Option<CanonicalIdentity> {
        self.canonical_target
    }

    pub fn canonical_target(&self) -> (target: Option<&CanonicalIdentity>)
        ensures
            target == (match self.target() {
                Some(identity) => Some(&identity),
                None => None,
            }),
    {
        self.canonical_target.as_ref()
    }
}

#[derive(Clone, Debug, PartialEq, Eq)]
pub enum Decision {
    Allow(Authorization),
    Deny(DenialReason),
}

/// What the identity boundary said about one requested name.
pub struct Lookup {
    pub requested_valid: bool,
    pub reply: Result<Option<IdentityView>, IdentityLookupError>,
    pub resolved_valid: bool,
}

pub open spec fn reply_view(reply: Result<Option<CanonicalIdentity>, IdentityLookupError>) -> Result<
    Option<IdentityView>,
    IdentityLookupError,
> {
    match reply {
        Ok(Some(identity)) => Ok(Some(identity@)),
        Ok(None) => Ok(None),
        Err(error) => Err(error),
    }
}

/// The canonical identity, or the reason for which there is none, that a
/// lookup of `requested` gives.
pub open spec fn resolution(requested: Seq<char>, lookup: Lookup) -> Result<
    IdentityView,
    DenialReason,
> {
    if !lookup.requested_valid {
        Err(DenialReason::InvalidTarget)
    } else {
        match lookup.reply {
            Err(_) => Err(DenialReason::IdentityLookupFailed),
            Ok(None) => Err(DenialReason::UnknownTarget),
            Ok(Some(identity)) => if !lookup.resolved_valid || identity.username != requested {
                Err(DenialReason::NonCanonicalTarget)
            } else {
                Ok(identity)
            },
        }
    }
}

/// The denial that is decided before any identity is looked up.
pub open spec fn early_denial(operation: Operation, context: AuthorizationContext) -> Option<
    DenialReason,
> {
    if operation is Unknown {
        Some(DenialReason::UnknownOperation)
    } else if operation is WrongPhase {
        Some(DenialReason::WrongPhase)
    } else if operation.ends_prompt() && !(context.connection_phase is PendingAuth) {
        Some(DenialReason::WrongPhase)
    } else {
        None
    }
}

/// The name that has to be resolved before the policy applies.
pub open spec fn requested_name(operation: Operation, context: AuthorizationContext) -> Option<
    Seq<char>,
> {
    if operation.ends_prompt() {
        match context.connection_phase {
            ConnectionPhase::PendingAuth { target, .. } => Some(target@.username),
            _ => None,
        }
    } else {
        operation.named_target()
    }
}

pub open spec fn may_target(peer_uid: u32, target: IdentityView) -> bool {
    peer_uid == 0 || peer_uid == target.uid
}

pub open spec fn is_bound(context: AuthorizationContext, target: IdentityView) -> bool {
    match context.connection_phase {
        ConnectionPhase::PendingAuth { peer_uid, target: pending } => peer_uid == context.peer_uid
            && pending@ == target,
        _ => false,
    }
}

/// The policy proper: why `operation` is denied to the peer of `context` for
/// the resolved `target`, or `None` where it is allowed.
pub open spec fn policy(
    operation: Operation,
    context: AuthorizationContext,
    target: Option<IdentityView>,
) -> Option<DenialReason> {
    let own = match target {
        Some(identity) => may_target(context.peer_uid, identity),
        None => false,
    };
    let bound = match target {
        Some(identity) => is_bound(context, identity),
        None => false,
    };
    if operation is Ping || operation is PublicInfo {
        None
    } else if operation is Authenticate && context.confirmation_required {
        Some(DenialReason::ConfirmationRequired)
    } else if operation is BeginAuth && !context.confirmation_required {
        Some(DenialReason::WrongPhase)
    } else if operation.ends_prompt() {
        if context.confirmation_required && own && bound {
            None
        } else {
            Some(DenialReason::WrongPhase)
        }
    } else if operation.is_self_service() {
        if own {
            None
        } else {
            Some(DenialReason::PermissionDenied)
        }
    } else if operation.is_root_only() {
        if context.peer_uid == 0 && (operation.named_target() is Some ==> target is Some) {
            None
        } else {
            Some(DenialReason::PermissionDenied)
        }
    } else {
        Some(DenialReason::PermissionDenied)
    }
}

/// The decision is an allow for exactly `target`, or the given denial.
pub open spec fn decision_is(
    decision: Decision,
    denial: Option<DenialReason>,
    target: Option<IdentityView>,
) -> bool {
    match denial {
        Some(reason) => decision == Decision::Deny(reason),
        None => match decision {
            Decision::Allow(authorization) => match target {
                Some(identity) => authorization.target() is Some
                    && authorization.target()->0@ == identity,
                None => authorization.target() is None,
            },
            Decision::Deny(_) => false,
        },
    }
}

/// The decision that follows from one lookup reply.
pub open spec fn decision_follows(
    decision: Decision,
    operation: Operation,
    context: AuthorizationContext,
    name: Seq<char>,
    lookup: Lookup,
) -> bool {
    match resolution(name, lookup) {
        Err(reason) => decision == Decision::Deny(reason),
        Ok(identity) => decision_is(
            decision,
            policy(operation, context, Some(identity)),
            Some(identity),
        ),
    }
}

/// `resolver` can answer `valid` on whether `name` is a user name.
pub open spec fn validated<R: IdentityResolver>(resolver: &R, name: &str, valid: bool) -> bool {
    call_ensures(R::valid_username, (resolver, name), valid)
}

/// `resolver` can give `reply` for `name`.
pub open spec fn replied<R: IdentityResolver>(
    resolver: &R,
    name: &str,
    reply: Result<Option<CanonicalIdentity>, IdentityLookupError>,
) -> bool {
    call_ensures(R::resolve, (resolver, name), reply)
}

/// `valid` is an answer of `resolver` on the name that a reply holds.
pub open spec fn revalidated<R: IdentityResolver>(
    resolver: &R,
    resolved: Seq<char>,
    valid: bool,
) -> bool {
    exists|name: &str| name@ == resolved && #[trigger] validated(resolver, name, valid)
}

/// `lookup` is what `resolver` said: the answers to the calls that the lookup
/// of `name` makes.
pub open spec fn answered<R: IdentityResolver>(resolver: &R, name: &str, lookup: Lookup) -> bool {
    &&& validated(resolver, name, lookup.requested_valid)
    &&& lookup.requested_valid ==> exists|
        reply: Result<Option<CanonicalIdentity>, IdentityLookupError>,
    |
        {
            &&& #[trigger] replied(resolver, name, reply)
            &&& lookup.reply == reply_view(reply)
            &&& lookup.reply matches Ok(Some(identity)) ==> revalidated(
                resolver,
                identity.username,
                lookup.resolved_valid,
            )
        }
}

/// What follows from some answer of `resolver` to the name that has to be resolved.
pub open spec fn decision_after_lookup<R: IdentityResolver>(
    resolver: &R,
    decision: Decision,
    operation: Operation,
    context: AuthorizationContext,
    name: Seq<char>,
) -> bool {
    exists|requested: &str, lookup: Lookup|
        requested@ == name && #[trigger] answered(resolver, requested, lookup) && decision_follows(
            decision,
            operation,
            context,
            name,
            lookup,
        )
}

/// What `authorize` returns: fixed where no identity is looked up, and
/// otherwise what follows from what the boundary replied for the name.
pub open spec fn authorized<R: IdentityResolver>(
    resolver: &R,
    decision: Decision,
    operation: Operation,
    context: AuthorizationContext,
) -> bool {
    match early_denial(operation, context) {
        Some(reason) => decision == Decision::Deny(reason),
        None => match requested_name(operation, context) {
            None => decision_is(decision, policy(operation, context, None), None),
            Some(name) => decision_after_lookup(resolver, decision, operation, context, name),
        },
    }
}

pub fn peer_may_target(peer_uid: u32, target: &CanonicalIdentity) -> (allowed: bool)
    ensures
        allowed == may_target(peer_uid, target@),
{
    peer_uid == 0 || peer_uid == target.uid()
}

pub fn connection_is_bound(context: &AuthorizationContext, target: &CanonicalIdentity) -> (bound:
    bool)
    ensures
        bound == is_bound(*context, target@),
{
    match &context.connection_phase {
        ConnectionPhase::PendingAuth { peer_uid, target: pending } => {
            *peer_uid == context.peer_uid && pending.uid() == target.uid() && str_eq(
                pending.username(),
                target.username(),
            )
        },
        _ => false,
    }
}

/// Turns the boundary's reply for `requested` into the canonical identity.
pub fn canonical_target_from(
    requested: &str,
    reply: Result<Option<CanonicalIdentity>, IdentityLookupError>,
    resolved_valid: bool,
) -> (target: Result<CanonicalIdentity, DenialReason>)
    ensures
        ({
            let lookup = Lookup {
                requested_valid: true,
                reply: reply_view(reply),
                resolved_valid,
            };
            match resolution(requested@, lookup) {
                Ok(identity) => target is Ok && target->Ok_0@ == identity,
                Err(reason) => target == Err::<CanonicalIdentity, DenialReason>(reason),
            }
        }),
{
    match reply {
        Err(_) => Err(DenialReason::IdentityLookupFailed),
        Ok(None) => Err(DenialReason::UnknownTarget),
        Ok(Some(identity)) => {
            if !resolved_valid || !str_eq(requested, identity.username()) {
                Err(DenialReason::NonCanonicalTarget)
            } else {
                Ok(identity)
            }
        },
    }
}

/// Applies the policy to a resolved target.
pub fn decide(
    operation: Operation<'_>,
    context: &AuthorizationContext,
    canonical_target: Option<CanonicalIdentity>,
) -> (decision: Decision)
    requires
        early_denial(operation, *context) is None,
    ensures
        ({
            let target = match canonical_target {
                Some(identity) => Some(identity@),
                None => None,
            };
            decision_is(decision, policy(operation, *context, target), target)
        }),
{
    let own = match &canonical_target {
        Some(target) => peer_may_target(context.peer_uid, target),
        None => false,
    };
    let allowed = match operation {
        Operation::Ping | Operation::PublicInfo => true,
        Operation::Authenticate { .. } => {
            if context.confirmation_required {
                return Decision::Deny(DenialReason::ConfirmationRequired);
            }
            own
        },
        Operation::BeginAuth { .. } => {
            if !context.confirmation_required {
                return Decision::Deny(DenialReason::WrongPhase);
            }
            own
        },
        Operation::EnrollmentPresence { .. }
        | Operation::CheckCredential { .. }
        | Operation::RevokeCredential { .. } => own,
        Operation::CommitAuth | Operation::CancelAuth => {
            let bound = match &canonical_target {
                Some(target) => connection_is_bound(context, target),
                None => false,
            };
            if !context.confirmation_required || !own || !bound {
                return Decision::Deny(DenialReason::WrongPhase);
            }
            true
        },
        Operation::Enroll { .. }
        | Operation::EnrollBatch { .. }
        | Operation::ListEnrollments { .. }
        | Operation::RemoveEnrollment { .. }
        | Operation::ClearEnrollments { .. } => context.peer_uid == 0 && canonical_target.is_some(),
        Operation::Detect | Operation::SecurityInfo | Operation::Reload | Operation::Shutdown => {
            context.peer_uid == 0
        },
        Operation::Unknown | Operation::WrongPhase => false,
    };
    if allowed {
        Decision::Allow(Authorization { canonical_target })
    } else {
        Decision::Deny(DenialReason::PermissionDenied)
    }
}

/// Resolve any target first, then apply the operation policy.
pub fn authorize<R: IdentityResolver>(
    resolver: &R,
    operation: Operation<'_>,
    context: &AuthorizationContext,
) -> (decision: Decision)
    ensures
        authorized(resolver, decision, operation, *context),
{
    let requested: Option<&str> = match operation {
        Operation::Unknown => {
            return Decision::Deny(DenialReason::UnknownOperation);
        },
        Operation::WrongPhase => {
            return Decision::Deny(DenialReason::WrongPhase);
        },
        Operation::CommitAuth | Operation::CancelAuth => match &context.connection_phase {
            ConnectionPhase::PendingAuth { target, .. } => Some(target.username()),
            ConnectionPhase::Initial | ConnectionPhase::Finished => {
                return Decision::Deny(DenialReason::WrongPhase);
            },
        },
        _ => operation.target(),
    };
    match requested {
        None => decide(operation, context, None),
        Some(name) => {
            let requested_valid = resolver.valid_username(name);
            if !requested_valid {
                let ghost lookup = Lookup {
                    requested_valid: false,
                    reply: Ok(None),
                    resolved_valid: false,
                };
                assert(answered(resolver, name, lookup));
                return Decision::Deny(DenialReason::InvalidTarget);
            }
            let reply = resolver.resolve(name);
            let resolved_valid = match &reply {
                Ok(Some(identity)) => {
                    let resolved = identity.username();
                    let valid = resolver.valid_username(resolved);
                    assert(validated(resolver, resolved, valid));
                    valid
                },
                _ => false,
            };
            let ghost lookup = Lookup {
                requested_valid: true,
                reply: reply_view(reply),
                resolved_valid,
            };
            assert(validated(resolver, name, requested_valid));
            assert(replied(resolver, name, reply));
            assert(answered(resolver, name, lookup));
            match canonical_target_from(name, reply, resolved_valid) {
                Ok(identity) => decide(operation, context, Some(identity)),
                Err(reason) => Decision::Deny(reason),
            }
        },
    }
}

/// `run` can turn `authorization` into `value`.
pub open spec fn ran<F, T>(run: F, authorization: Authorization, value: T) -> bool where
    F: FnOnce(Authorization) -> T,
 {
    call_ensures(run, (authorization,), value)
}

/// `value` is what `run` made of an authorization that the request was granted.
pub open spec fn ran_authorized<R: IdentityResolver, F, T>(
    resolver: &R,
    operation: Operation,
    context: AuthorizationContext,
    run: F,
    value: T,
) -> bool where F: FnOnce(Authorization) -> T {
    exists|authorization: Authorization|
        authorized(resolver, Decision::Allow(authorization), operation, context) && #[trigger] ran(
            run,
            authorization,
            value,
        )
}

/// Execute a request body only after an allow decision.
pub fn authorize_and_then<R, T, F>(
    resolver: &R,
    operation: Operation<'_>,
    context: &AuthorizationContext,
    run: F,
) -> (outcome: Result<T, DenialReason>) where R: IdentityResolver, F: FnOnce(Authorization) -> T
    requires
        forall|authorization: Authorization|
            authorized(resolver, Decision::Allow(authorization), operation, *context)
                ==> #[trigger] call_requires(run, (authorization,)),
    ensures
        match outcome {
            Ok(value) => ran_authorized(resolver, operation, *context, run, value),
            Err(reason) => authorized(resolver, Decision::Deny(reason), operation, *context),
        },
{
    match authorize(resolver, operation, context) {
        Decision::Allow(authorization) => {
            let ghost granted = authorization;
            let value = run(authorization);
            assert(ran(run, granted, value));
            assert(ran_authorized(resolver, operation, *context, run, value));
            Ok(value)
        },
        Decision::Deny(reason) => Err(reason),
    }
}

/// An allowed request with a target is allowed for the canonical identity of
/// the very name that was requested, and the peer is root or that user.
pub proof fn allowed_target_is_own_and_canonical<R: IdentityResolver>(
    resolver: &R,
    authorization: Authorization,
    operation: Operation,
    context: AuthorizationContext,
)
    requires
        authorized(resolver, Decision::Allow(authorization), operation, context),
    ensures
        match requested_name(operation, context) {
            Some(name) => {
                &&& authorization.target() is Some
                &&& authorization.target()->0@.username == name
                &&& may_target(context.peer_uid, authorization.target()->0@)
            },
            None => authorization.target() is None,
        },
{
}

/// Root-only operations are allowed to root alone.
pub proof fn root_only_operations_need_root<R: IdentityResolver>(
    resolver: &R,
    decision: Decision,
    operation: Operation,
    context: AuthorizationContext,
)
    requires
        authorized(resolver, decision, operation, context),
        operation.is_root_only(),
        context.peer_uid != 0,
    ensures
        decision is Deny,
{
}

/// Unknown and out-of-phase requests are denied to every peer, root included.
pub proof fn unknown_requests_are_denied<R: IdentityResolver>(
    resolver: &R,
    decision: Decision,
    operation: Operation,
    context: AuthorizationContext,
)
    requires
        authorized(resolver, decision, operation, context),
        operation is Unknown || operation is WrongPhase,
    ensures
        decision is Deny,
{
}

/// A prompt is committed or cancelled only on the connection that opened it:
/// by the same peer, for the same target, while confirmation is in force.
pub proof fn prompts_end_on_their_connection<R: IdentityResolver>(
    resolver: &R,
    authorization: Authorization,
    operation: Operation,
    context: AuthorizationContext,
)
    requires
        authorized(resolver, Decision::Allow(authorization), operation, context),
        operation.ends_prompt(),
    ensures
        context.confirmation_required,
        authorization.target() is Some,
        is_bound(context, authorization.target()->0@),
{
}

/// Confirmation decides between the one-shot and the prompted exchange: at
/// most one of the two is open to any peer.
pub proof fn confirmation_selects_the_exchange<R: IdentityResolver>(
    resolver: &R,
    decision: Decision,
    operation: Operation,
    context: AuthorizationContext,
)
    requires
        authorized(resolver, decision, operation, context),
    ensures
        operation is Authenticate && context.confirmation_required ==> decision is Deny,
        (operation is BeginAuth || operation.ends_prompt()) && !context.confirmation_required
            ==> decision is Deny,
{
}

/// A failed or empty lookup, an invalid name and a name that is not canonical
/// deny every request that names a target.
pub proof fn failed_lookups_deny(
    decision: Decision,
    operation: Operation,
    context: AuthorizationContext,
    name: Seq<char>,
    lookup: Lookup,
)
    requires
        decision_follows(decision, operation, context, name, lookup),
        !lookup.requested_valid || lookup.reply is Err || lookup.reply == Ok::<
            Option<IdentityView>,
            IdentityLookupError,
        >(None) || !lookup.resolved_valid,
    ensures
        decision is Deny,
{
}


/// The name that a request is about: the one that it gives, or the one that the
/// pending prompt was opened for.
pub open spec fn name_in_request(operation: Operation, phase: ConnectionPhase) -> Option<
    Seq<char>,
> {
    match operation {
        Operation::Authenticate { target } | Operation::BeginAuth { target } => Some(target@),
        Operation::EnrollmentPresence { target } => Some(target@),
        Operation::CheckCredential { target } | Operation::RevokeCredential { target } => Some(
            target@,
        ),
        Operation::Enroll { target } | Operation::EnrollBatch { target } => Some(target@),
        Operation::ListEnrollments { target } | Operation::RemoveEnrollment { target } => Some(
            target@,
        ),
        Operation::ClearEnrollments { target } => Some(target@),
        Operation::CommitAuth | Operation::CancelAuth => match phase {
            ConnectionPhase::PendingAuth { target, .. } => Some(target@.username),
            _ => None,
        },
        _ => None,
    }
}

/// Who may do what: anybody may ask whether the daemon is there, everybody may act on
/// their own account, and root on every account; the one-shot exchange is for where
/// no confirmation is asked, the prompted one for where it is, and it ends on the
/// connection that began it; all else is for root alone.
pub open spec fn may_do(
    operation: Operation,
    peer: u32,
    confirmation: bool,
    phase: ConnectionPhase,
    target: Option<IdentityView>,
) -> bool {
    let root = peer == 0;
    let own = target matches Some(identity) && (root || identity.uid == peer);
    match operation {
        Operation::Ping | Operation::PublicInfo => true,
        Operation::Authenticate { .. } => own && !confirmation,
        Operation::BeginAuth { .. } => own && confirmation,
        Operation::CommitAuth | Operation::CancelAuth => own && confirmation && match phase {
            ConnectionPhase::PendingAuth { peer_uid, target: pending } => peer_uid == peer
                && Some(pending@) == target,
            _ => false,
        },
        Operation::EnrollmentPresence { .. } => own,
        Operation::CheckCredential { .. } | Operation::RevokeCredential { .. } => own,
        Operation::Enroll { .. } | Operation::EnrollBatch { .. } => root && target is Some,
        Operation::ListEnrollments { .. } => root && target is Some,
        Operation::RemoveEnrollment { .. } => root && target is Some,
        Operation::ClearEnrollments { .. } => root && target is Some,
        Operation::Detect | Operation::SecurityInfo => root,
        Operation::Reload | Operation::Shutdown => root,
        Operation::Unknown | Operation::WrongPhase => false,
    }
}

/// The decision on a request that names nobody: it is allowed exactly where the peer
/// may do it, for no target.
pub proof fn requests_without_a_name_are_decided<R: IdentityResolver>(
    resolver: &R,
    decision: Decision,
    operation: Operation,
    context: AuthorizationContext,
)
    requires
        authorized(resolver, decision, operation, context),
        name_in_request(operation, context.connection_phase) is None,
    ensures
        decision is Allow <==> may_do(
            operation,
            context.peer_uid,
            context.confirmation_required,
            context.connection_phase,
            None,
        ),
        decision matches Decision::Allow(authorization) ==> authorization.target() is None,
{
}

/// The decision on a request that names somebody follows from what the name service
/// says of exactly that name. It is allowed exactly where the name is valid, stands
/// for an account whose own name is that very one and valid too, and the peer may do
/// it to that account; and then for that account.
pub proof fn requests_with_a_name_are_decided<R: IdentityResolver>(
    resolver: &R,
    decision: Decision,
    operation: Operation,
    context: AuthorizationContext,
) -> (lookup: Lookup)
    requires
        authorized(resolver, decision, operation, context),
        name_in_request(operation, context.connection_phase) is Some,
    ensures
        exists|requested: &str|
            requested@ == name_in_request(operation, context.connection_phase)->0
                && #[trigger] answered(resolver, requested, lookup),
        decision is Allow <==> {
            &&& lookup.requested_valid && lookup.resolved_valid
            &&& lookup.reply matches Ok(Some(identity)) && identity.username == name_in_request(
                operation,
                context.connection_phase,
            )->0 && may_do(
                operation,
                context.peer_uid,
                context.confirmation_required,
                context.connection_phase,
                Some(identity),
            )
        },
        decision matches Decision::Allow(authorization) ==> authorization.target() matches Some(
            granted,
        ) && lookup.reply == Ok::<Option<IdentityView>, IdentityLookupError>(Some(granted@)),
        !lookup.requested_valid ==> decision == Decision::Deny(DenialReason::InvalidTarget),
        lookup.requested_valid && lookup.reply is Err ==> decision == Decision::Deny(
            DenialReason::IdentityLookupFailed,
        ),
        lookup.requested_valid && lookup.reply == Ok::<
            Option<IdentityView>,
            IdentityLookupError,
        >(None) ==> decision == Decision::Deny(DenialReason::UnknownTarget),
{
    let name = name_in_request(operation, context.connection_phase)->0;
    assert(requested_name(operation, context) == Some(name));
    assert(early_denial(operation, context) is None);
    assert(decision_after_lookup(resolver, decision, operation, context, name));
    let (requested, lookup) = choose|requested: &str, lookup: Lookup|
        requested@ == name && #[trigger] answered(resolver, requested, lookup) && decision_follows(
            decision,
            operation,
            context,
            name,
            lookup,
        );
    lookup
}


/// Why a request is denied: what is unknown or out of turn is; a plain exchange where
/// confirmation is required, and a confirmed one where it is not; and else whoever may
/// not do it.
pub proof fn denials_have_their_reasons(
    operation: Operation,
    context: AuthorizationContext,
    target: Option<IdentityView>,
)
    requires
        !may_do(
            operation,
            context.peer_uid,
            context.confirmation_required,
            context.connection_phase,
            target,
        ),
    ensures
        ({
            let early = early_denial(operation, context);
            let reason = if early is Some {
                early
            } else {
                policy(operation, context, target)
            };
            &&& operation is Unknown ==> reason == Some(DenialReason::UnknownOperation)
            &&& operation is WrongPhase ==> reason == Some(DenialReason::WrongPhase)
            &&& operation is CommitAuth || operation is CancelAuth ==> reason == Some(
                DenialReason::WrongPhase,
            )
            &&& operation is Authenticate && context.confirmation_required ==> reason == Some(
                DenialReason::ConfirmationRequired,
            )
            &&& operation is BeginAuth && !context.confirmation_required ==> reason == Some(
                DenialReason::WrongPhase,
            )
            &&& operation is Authenticate && !context.confirmation_required ==> reason == Some(
                DenialReason::PermissionDenied,
            )
            &&& operation is BeginAuth && context.confirmation_required ==> reason == Some(
                DenialReason::PermissionDenied,
            )
            &&& operation is EnrollmentPresence || operation is CheckCredential
                || operation is RevokeCredential ==> reason == Some(DenialReason::PermissionDenied)
            &&& operation is Enroll || operation is EnrollBatch || operation is ListEnrollments
                || operation is RemoveEnrollment || operation is ClearEnrollments || operation
                is Detect || operation is SecurityInfo || operation is Reload || operation
                is Shutdown ==> reason == Some(DenialReason::PermissionDenied)
        }),
{
}

/// A name stands for an account exactly where it is valid, is found, and is found under
/// that same valid name; each of the other outcomes has its own reason.
pub proof fn names_stand_for_their_accounts(requested: Seq<char>, lookup: Lookup)
    ensures
        resolution(requested, lookup) matches Ok(identity) ==> lookup.requested_valid
            && lookup.resolved_valid && lookup.reply == Ok::<
            Option<IdentityView>,
            IdentityLookupError,
        >(Some(identity)) && identity.username == requested,
        resolution(requested, lookup) is Ok <==> lookup.requested_valid && lookup.resolved_valid && (
        lookup.reply matches Ok(Some(identity)) && identity.username == requested),
        !lookup.requested_valid ==> resolution(requested, lookup) == Err::<
            IdentityView,
            DenialReason,
        >(DenialReason::InvalidTarget),
        lookup.requested_valid && lookup.reply is Err ==> resolution(requested, lookup) == Err::<
            IdentityView,
            DenialReason,
        >(DenialReason::IdentityLookupFailed),
        lookup.requested_valid && lookup.reply == Ok::<Option<IdentityView>, IdentityLookupError>(
            None,
        ) ==> resolution(requested, lookup) == Err::<IdentityView, DenialReason>(
            DenialReason::UnknownTarget,
        ),
        lookup.requested_valid && (lookup.reply matches Ok(Some(identity)) && (
        !lookup.resolved_valid || identity.username != requested)) ==> resolution(requested, lookup)
            == Err::<IdentityView, DenialReason>(DenialReason::NonCanonicalTarget),
{
}

/// A buffer that was too small is doubled, up to a megabyte.
pub proof fn buffers_double_up_to_their_limit(size: usize)
    ensures
        grown(size) <= 1048576,
        grown(size) == 2 * size || (grown(size) == 1048576 && 2 * size >= 1048576),
{
}


/// A record's name runs from where it starts to the first zero byte behind that, which
/// has to lie within the buffer, and it is text. There is at most one such name.
pub proof fn record_names_run_to_the_first_zero(
    buffer: Seq<u8>,
    start: usize,
    name: Seq<u8>,
    other: Seq<u8>,
)
    ensures
        record_name(buffer, Some(start), name) <==> {
            &&& start + name.len() < buffer.len()
            &&& buffer[start + name.len()] == 0
            &&& forall|i: int|
                0 <= i < name.len() ==> #[trigger] name[i] != 0 && name[i] == buffer[start + i]
            &&& valid_utf8(name)
        },
        record_name(buffer, Some(start), name) && record_name(buffer, Some(start), other) ==> name
            == other,
        !record_name(buffer, None, name),
{
    if start < buffer.len() {
        let rest = buffer.skip(start as int);
        named_as_the_buffer(buffer, start, name);
        named_as_the_buffer(buffer, start, other);
        if record_name(buffer, Some(start), name) && record_name(buffer, Some(start), other) {
            if name.len() < other.len() {
                assert(other[name.len() as int] == buffer[start + name.len()]);
            }
            if other.len() < name.len() {
                assert(name[other.len() as int] == buffer[start + other.len()]);
            }
            assert(name =~= other);
        }
    }
}

proof fn named_as_the_buffer(buffer: Seq<u8>, start: usize, name: Seq<u8>)
    requires
        start < buffer.len(),
    ensures
        nul_terminated(buffer.skip(start as int), name) <==> {
            &&& start + name.len() < buffer.len()
            &&& buffer[start + name.len()] == 0
            &&& forall|i: int|
                0 <= i < name.len() ==> #[trigger] name[i] != 0 && name[i] == buffer[start + i]
        },
{
    let rest = buffer.skip(start as int);
    if name.len() < rest.len() {
        if rest.take(name.len() as int) == name {
            assert forall|i: int| 0 <= i < name.len() implies #[trigger] name[i] == buffer[start
                + i] by {
                assert(rest.take(name.len() as int)[i] == buffer[start + i]);
            }
        }
        if forall|i: int| 0 <= i < name.len() ==> #[trigger] name[i] == buffer[start + i] {
            assert(rest.take(name.len() as int) =~= name);
        }
    }
}

} // verus!
