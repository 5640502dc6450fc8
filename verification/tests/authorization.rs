//! Who may ask for what.
use howy_daemon::authorization::{
    authorize, authorize_and_then, canonical_target_from, connection_is_bound, peer_may_target,
    AuthorizationContext, CanonicalIdentity, ConnectionPhase, Decision, DenialReason,
    IdentityLookupError, IdentityResolver, NssEvent, NssStep, Operation, SystemIdentityResolver,
    DEFAULT_NSS_BUFFER_SIZE, MAX_NSS_BUFFER_SIZE,
};
use std::cell::Cell;

const ROOT_UID: u32 = 0;
const ALICE_UID: u32 = 1000;
const OTHER_UID: u32 = 1001;

#[derive(Default)]
struct MockResolver {
    calls: Cell<usize>,
}

impl IdentityResolver for MockResolver {
    fn valid_username(&self, username: &str) -> bool {
        !username.is_empty() && !username.contains('/')
    }

    fn resolve(
        &self,
        requested_username: &str,
    ) -> Result<Option<CanonicalIdentity>, IdentityLookupError> {
        self.calls.set(self.calls.get() + 1);
        match requested_username {
            "alice" => Ok(Some(CanonicalIdentity::new("alice", ALICE_UID))),
            "root" => Ok(Some(CanonicalIdentity::new("root", ROOT_UID))),
            "alias" => Ok(Some(CanonicalIdentity::new("alice", ALICE_UID))),
            "lookup-error" => Err(IdentityLookupError::System(libc::EIO)),
            _ => Ok(None),
        }
    }
}

#[derive(Clone, Copy)]
struct MatrixCase {
    name: &'static str,
    operation: fn(&'static str) -> Operation<'static>,
    matching_allowed: bool,
    root_allowed: bool,
    other_allowed: bool,
    connection_bound: bool,
}

fn target_cases() -> [MatrixCase; 10] {
    [
        MatrixCase {
            name: "authenticate",
            operation: |target| Operation::Authenticate { target },
            matching_allowed: true,
            root_allowed: true,
            other_allowed: false,
            connection_bound: false,
        },
        MatrixCase {
            name: "begin_auth",
            operation: |target| Operation::BeginAuth { target },
            matching_allowed: true,
            root_allowed: true,
            other_allowed: false,
            connection_bound: false,
        },
        MatrixCase {
            name: "enrollment_presence",
            operation: |target| Operation::EnrollmentPresence { target },
            matching_allowed: true,
            root_allowed: true,
            other_allowed: false,
            connection_bound: false,
        },
        MatrixCase {
            name: "check_credential",
            operation: |target| Operation::CheckCredential { target },
            matching_allowed: true,
            root_allowed: true,
            other_allowed: false,
            connection_bound: false,
        },
        MatrixCase {
            name: "revoke_credential",
            operation: |target| Operation::RevokeCredential { target },
            matching_allowed: true,
            root_allowed: true,
            other_allowed: false,
            connection_bound: false,
        },
        MatrixCase {
            name: "enroll",
            operation: |target| Operation::Enroll { target },
            matching_allowed: false,
            root_allowed: true,
            other_allowed: false,
            connection_bound: false,
        },
        MatrixCase {
            name: "enroll_batch",
            operation: |target| Operation::EnrollBatch { target },
            matching_allowed: false,
            root_allowed: true,
            other_allowed: false,
            connection_bound: false,
        },
        MatrixCase {
            name: "list_enrollments",
            operation: |target| Operation::ListEnrollments { target },
            matching_allowed: false,
            root_allowed: true,
            other_allowed: false,
            connection_bound: false,
        },
        MatrixCase {
            name: "remove_enrollment",
            operation: |target| Operation::RemoveEnrollment { target },
            matching_allowed: false,
            root_allowed: true,
            other_allowed: false,
            connection_bound: false,
        },
        MatrixCase {
            name: "clear_enrollments",
            operation: |target| Operation::ClearEnrollments { target },
            matching_allowed: false,
            root_allowed: true,
            other_allowed: false,
            connection_bound: false,
        },
    ]
}

fn context(peer_uid: u32, connection_bound: bool) -> AuthorizationContext {
    let connection_phase = if connection_bound {
        ConnectionPhase::PendingAuth {
            peer_uid,
            target: CanonicalIdentity::new("alice", ALICE_UID),
        }
    } else {
        ConnectionPhase::Initial
    };
    AuthorizationContext {
        peer_uid,
        confirmation_required: false,
        connection_phase,
    }
}

fn is_allowed(decision: Decision) -> bool {
    matches!(decision, Decision::Allow(_))
}

#[test]
fn authorization_target_matrix_is_exhaustive() {
    let resolver = MockResolver::default();
    for case in target_cases() {
        for (role, peer_uid, expected) in [
            ("matching", ALICE_UID, case.matching_allowed),
            ("root", ROOT_UID, case.root_allowed),
            ("other", OTHER_UID, case.other_allowed),
        ] {
            let mut authorization_context = context(peer_uid, case.connection_bound);
            authorization_context.confirmation_required = case.name == "begin_auth";
            let decision =
                authorize(&resolver, (case.operation)("alice"), &authorization_context);
            assert_eq!(is_allowed(decision), expected, "{} for {role}", case.name);
        }
    }
}

#[test]
fn authorization_targetless_matrix_is_exhaustive() {
    let resolver = MockResolver::default();
    let cases = [
        ("ping", Operation::Ping, true, true, true),
        ("public_info", Operation::PublicInfo, true, true, true),
        ("detect", Operation::Detect, false, true, false),
        ("security_info", Operation::SecurityInfo, false, true, false),
        ("reload", Operation::Reload, false, true, false),
        ("shutdown", Operation::Shutdown, false, true, false),
        ("unknown", Operation::Unknown, false, false, false),
        ("wrong_phase", Operation::WrongPhase, false, false, false),
    ];
    for (name, operation, matching, root, other) in cases {
        for (role, uid, expected) in [
            ("matching", ALICE_UID, matching),
            ("root", ROOT_UID, root),
            ("other", OTHER_UID, other),
        ] {
            assert_eq!(
                is_allowed(authorize(&resolver, operation, &context(uid, false))),
                expected,
                "{name} for {role}"
            );
        }
    }
    assert_eq!(resolver.calls.get(), 0);
}

#[test]
fn every_target_operation_rejects_unknown_and_noncanonical_users() {
    let resolver = MockResolver::default();
    for case in target_cases() {
        for (target, expected) in [
            ("missing", DenialReason::UnknownTarget),
            ("alias", DenialReason::NonCanonicalTarget),
            ("../alice", DenialReason::InvalidTarget),
        ] {
            assert_eq!(
                authorize(
                    &resolver,
                    (case.operation)(target),
                    &context(ROOT_UID, case.connection_bound),
                ),
                Decision::Deny(expected),
                "{} with {target}",
                case.name
            );
        }
    }
    for operation in [Operation::CommitAuth, Operation::CancelAuth] {
        for (target, expected) in [
            (
                CanonicalIdentity::new("missing", ALICE_UID),
                DenialReason::UnknownTarget,
            ),
            (
                CanonicalIdentity::new("alias", ALICE_UID),
                DenialReason::NonCanonicalTarget,
            ),
            (
                CanonicalIdentity::new("../alice", ALICE_UID),
                DenialReason::InvalidTarget,
            ),
        ] {
            assert_eq!(
                authorize(
                    &resolver,
                    operation,
                    &AuthorizationContext {
                        peer_uid: ROOT_UID,
                        confirmation_required: true,
                        connection_phase: ConnectionPhase::PendingAuth {
                            peer_uid: ROOT_UID,
                            target,
                        },
                    },
                ),
                Decision::Deny(expected),
                "{operation:?}"
            );
        }
    }
}

#[test]
fn root_target_requests_still_require_nss_resolution() {
    let resolver = MockResolver::default();
    assert!(is_allowed(authorize(
        &resolver,
        Operation::Enroll { target: "alice" },
        &context(ROOT_UID, false),
    )));
    assert_eq!(resolver.calls.get(), 1);
    assert_eq!(
        authorize(
            &resolver,
            Operation::Enroll { target: "missing" },
            &context(ROOT_UID, false),
        ),
        Decision::Deny(DenialReason::UnknownTarget)
    );
}

#[test]
fn confirmation_requires_begin_auth_instead_of_one_shot_authenticate() {
    let resolver = MockResolver::default();
    for peer_uid in [ROOT_UID, ALICE_UID] {
        assert_eq!(
            authorize(
                &resolver,
                Operation::Authenticate { target: "alice" },
                &AuthorizationContext::initial(peer_uid, true),
            ),
            Decision::Deny(DenialReason::ConfirmationRequired)
        );
        assert!(is_allowed(authorize(
            &resolver,
            Operation::BeginAuth { target: "alice" },
            &AuthorizationContext::initial(peer_uid, true),
        )));
        assert_eq!(
            authorize(
                &resolver,
                Operation::BeginAuth { target: "alice" },
                &AuthorizationContext::initial(peer_uid, false),
            ),
            Decision::Deny(DenialReason::WrongPhase)
        );
    }
}

#[test]
fn commit_and_cancel_are_bound_to_connection_peer_and_target() {
    let resolver = MockResolver::default();
    for operation in [Operation::CommitAuth, Operation::CancelAuth] {
        assert_eq!(
            authorize(
                &resolver,
                operation,
                &AuthorizationContext {
                    peer_uid: ALICE_UID,
                    confirmation_required: false,
                    connection_phase: ConnectionPhase::PendingAuth {
                        peer_uid: ALICE_UID,
                        target: CanonicalIdentity::new("alice", ALICE_UID),
                    },
                },
            ),
            Decision::Deny(DenialReason::WrongPhase)
        );
        for (role, peer_uid, expected) in [
            ("matching", ALICE_UID, true),
            ("root", ROOT_UID, true),
            ("other", OTHER_UID, false),
        ] {
            assert_eq!(
                is_allowed(authorize(
                    &resolver,
                    operation,
                    &AuthorizationContext {
                        peer_uid,
                        confirmation_required: true,
                        connection_phase: ConnectionPhase::PendingAuth {
                            peer_uid,
                            target: CanonicalIdentity::new("alice", ALICE_UID),
                        },
                    },
                )),
                expected,
                "{operation:?} for {role}"
            );
        }
        assert_eq!(
            authorize(
                &resolver,
                operation,
                &AuthorizationContext::initial(ALICE_UID, true),
            ),
            Decision::Deny(DenialReason::WrongPhase)
        );
        assert_eq!(
            authorize(
                &resolver,
                operation,
                &AuthorizationContext {
                    peer_uid: ALICE_UID,
                    confirmation_required: true,
                    connection_phase: ConnectionPhase::Finished,
                },
            ),
            Decision::Deny(DenialReason::WrongPhase)
        );
        assert_eq!(
            authorize(
                &resolver,
                operation,
                &AuthorizationContext {
                    peer_uid: ALICE_UID,
                    confirmation_required: true,
                    connection_phase: ConnectionPhase::PendingAuth {
                        peer_uid: OTHER_UID,
                        target: CanonicalIdentity::new("alice", ALICE_UID),
                    },
                },
            ),
            Decision::Deny(DenialReason::WrongPhase)
        );
        assert_eq!(
            authorize(
                &resolver,
                operation,
                &AuthorizationContext {
                    peer_uid: ALICE_UID,
                    confirmation_required: true,
                    connection_phase: ConnectionPhase::PendingAuth {
                        peer_uid: ALICE_UID,
                        target: CanonicalIdentity::new("root", ROOT_UID),
                    },
                },
            ),
            Decision::Deny(DenialReason::WrongPhase)
        );
    }
}

#[test]
fn denied_requests_do_not_run_side_effect_body() {
    let resolver = MockResolver::default();
    let storage_calls = Cell::new(0_u32);
    let credential_calls = Cell::new(0_u32);
    let inference_calls = Cell::new(0_u32);
    let camera_calls = Cell::new(0_u32);
    for operation in [
        Operation::Authenticate { target: "alice" },
        Operation::EnrollmentPresence { target: "alice" },
        Operation::Enroll { target: "alice" },
        Operation::EnrollBatch { target: "alice" },
        Operation::ListEnrollments { target: "alice" },
        Operation::RemoveEnrollment { target: "alice" },
        Operation::ClearEnrollments { target: "alice" },
        Operation::Reload,
        Operation::SecurityInfo,
        Operation::Detect,
        Operation::CheckCredential { target: "alice" },
        Operation::RevokeCredential { target: "alice" },
        Operation::Shutdown,
        Operation::Unknown,
    ] {
        let result =
            authorize_and_then(&resolver, operation, &context(OTHER_UID, false), |_| {
                storage_calls.set(storage_calls.get() + 1);
                credential_calls.set(credential_calls.get() + 1);
                inference_calls.set(inference_calls.get() + 1);
                camera_calls.set(camera_calls.get() + 1);
            });
        assert!(result.is_err(), "{operation:?}");
    }
    assert_eq!(storage_calls.get(), 0);
    assert_eq!(credential_calls.get(), 0);
    assert_eq!(inference_calls.get(), 0);
    assert_eq!(camera_calls.get(), 0);
}

#[test]
fn allowed_decision_returns_only_the_canonical_target() {
    let resolver = MockResolver::default();
    let Decision::Allow(authorization) = authorize(
        &resolver,
        Operation::Authenticate { target: "alice" },
        &context(ALICE_UID, false),
    ) else {
        panic!("matching user should be authorized");
    };
    assert_eq!(
        authorization.canonical_target(),
        Some(&CanonicalIdentity::new("alice", ALICE_UID))
    );
}

#[test]
fn nss_failure_is_fail_closed() {
    let resolver = MockResolver::default();
    assert_eq!(
        authorize(
            &resolver,
            Operation::Authenticate {
                target: "lookup-error",
            },
            &context(ALICE_UID, false),
        ),
        Decision::Deny(DenialReason::IdentityLookupFailed)
    );
}

#[test]
fn system_nss_resolver_returns_the_exact_root_identity() {
    let NssStep::Done { reply } = SystemIdentityResolver::step(
        16384,
        NssEvent::Found {
            buffer: b"x\0root\0/root\0",
            name_offset: Some(2),
            uid: 0,
        },
    ) else {
        panic!("a found record ends the lookup");
    };
    let root = reply.unwrap().unwrap();
    assert_eq!(root, CanonicalIdentity::new("root", ROOT_UID));
    assert_eq!(root.username(), "root");
    assert_eq!(root.uid(), 0);
}

#[test]
fn lookups_retry_within_a_bounded_buffer() {
    assert_eq!(SystemIdentityResolver::first_buffer_size(-1), DEFAULT_NSS_BUFFER_SIZE);
    assert_eq!(SystemIdentityResolver::first_buffer_size(4096), 4096);
    assert!(matches!(
        SystemIdentityResolver::step(4096, NssEvent::Interrupted),
        NssStep::Retry { buffer_size: 4096 }
    ));
    assert!(matches!(
        SystemIdentityResolver::step(4096, NssEvent::BufferTooSmall),
        NssStep::Retry { buffer_size: 8192 }
    ));
    assert!(matches!(
        SystemIdentityResolver::step(MAX_NSS_BUFFER_SIZE, NssEvent::BufferTooSmall),
        NssStep::Done {
            reply: Err(IdentityLookupError::BufferLimit)
        }
    ));
    assert!(matches!(
        SystemIdentityResolver::step(4096, NssEvent::Failed { status: 5 }),
        NssStep::Done {
            reply: Err(IdentityLookupError::System(5))
        }
    ));
    assert!(matches!(
        SystemIdentityResolver::step(4096, NssEvent::Missing),
        NssStep::Done { reply: Ok(None) }
    ));
}

#[test]
fn records_without_a_proper_name_are_invalid() {
    for (buffer, name_offset) in [
        (&b"root\0"[..], None),
        (&b"root"[..], Some(0)),
        (&b"root\0"[..], Some(9)),
        (&b"\xff\xfe\0"[..], Some(0)),
    ] {
        assert!(matches!(
            SystemIdentityResolver::step(
                4096,
                NssEvent::Found {
                    buffer,
                    name_offset,
                    uid: 7,
                },
            ),
            NssStep::Done {
                reply: Err(IdentityLookupError::InvalidRecord)
            }
        ));
    }
}

#[test]
fn targets_are_the_peers_own_unless_it_is_root() {
    let alice = CanonicalIdentity::new("alice", ALICE_UID);
    assert!(peer_may_target(ROOT_UID, &alice));
    assert!(peer_may_target(ALICE_UID, &alice));
    assert!(!peer_may_target(OTHER_UID, &alice));
    assert!(!connection_is_bound(
        &AuthorizationContext::initial(ALICE_UID, true),
        &alice
    ));
}

#[test]
fn replies_are_held_to_the_requested_name() {
    let alice = CanonicalIdentity::new("alice", ALICE_UID);
    assert_eq!(
        canonical_target_from("alice", Ok(Some(alice.clone())), true),
        Ok(alice.clone())
    );
    assert_eq!(
        canonical_target_from("alice", Ok(Some(alice.clone())), false),
        Err(DenialReason::NonCanonicalTarget)
    );
    assert_eq!(
        canonical_target_from("alicia", Ok(Some(alice)), true),
        Err(DenialReason::NonCanonicalTarget)
    );
    assert_eq!(
        canonical_target_from("alice", Ok(None), true),
        Err(DenialReason::UnknownTarget)
    );
    assert_eq!(
        canonical_target_from("alice", Err(IdentityLookupError::BufferLimit), true),
        Err(DenialReason::IdentityLookupFailed)
    );
}

#[test]
fn operations_name_their_target() {
    assert_eq!(Operation::Enroll { target: "bob" }.target(), Some("bob"));
    assert_eq!(Operation::Reload.target(), None);
    let outcome = authorize_and_then(
        &MockResolver::default(),
        Operation::Enroll { target: "alice" },
        &context(ROOT_UID, false),
        |authorization| authorization.canonical_target().unwrap().uid(),
    );
    assert_eq!(outcome, Ok(ALICE_UID));
}
