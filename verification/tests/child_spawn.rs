//! The identity and the sandbox of a child process.
use howy_daemon::child_spawn::{
    begin_drop_identity, child_pre_exec, credential_probe, identity_for_camera_metadata,
    validate_absolute_path, validate_database_metadata, validate_drop_identity_metadata,
    validate_executable_metadata, validate_ffmpeg_account, validate_local_account_files,
    verify_child_identity, verify_inaccessible, AccessAttempt, AccountError, ChildObservation,
    ChildPolicyError, ChildProbe, ChildStep, CredentialProbe, DaemonChildPolicy, DropIdentity,
    GroupRecord, IdentityReply, IdentityStage, IdentityStep, PasswdRecord, PreExecStep,
    ShadowRecord, SHARED_NOBODY_ID,
};
use howy_daemon::mode1_key::EmbeddingSecurityMode;

fn drop_identity() -> DropIdentity {
    DropIdentity {
        uid: 971,
        gid: 971,
        camera_gid: None,
        require_irreversible_drop: true,
    }
}

#[test]
fn executable_metadata_policy_is_root_regular_executable_and_not_writable() {
    assert!(validate_executable_metadata(true, 0, 0o100_755).is_ok());
    for (is_file, owner, mode) in [
        (false, 0, 0o100_755),
        (true, 1000, 0o100_755),
        (true, 0, 0o100_644),
        (true, 0, 0o100_775),
        (true, 0, 0o100_757),
    ] {
        assert_eq!(
            validate_executable_metadata(is_file, owner, mode),
            Err(ChildPolicyError::ExecutableRejected)
        );
    }
}

#[test]
fn policy_clears_environment_and_fails_closed_without_root_drop_capability() {
    let policy = DaemonChildPolicy::for_mode(
        EmbeddingSecurityMode::Plaintext,
        true,
        Err(AccountError::NotPrivileged),
        Err(ChildPolicyError::CredentialProbeUnavailable),
    );
    assert!(!policy.ffmpeg_available());
    assert!(policy.environment().is_empty());
}

#[test]
fn dedicated_identity_policy_rejects_root_shared_login_and_group_metadata() {
    assert!(validate_drop_identity_metadata(
        971,
        971,
        b"howy-ffmpeg",
        b"Howy FFmpeg sandbox",
        b"/",
        b"/usr/bin/nologin",
        false,
    )
    .is_ok());
    for rejected in [
        (
            0,
            971,
            b"howy-ffmpeg".as_slice(),
            b"/usr/bin/nologin".as_slice(),
            false,
        ),
        (
            SHARED_NOBODY_ID,
            SHARED_NOBODY_ID,
            b"howy-ffmpeg".as_slice(),
            b"/usr/bin/nologin".as_slice(),
            false,
        ),
        (
            971,
            971,
            b"nobody".as_slice(),
            b"/usr/bin/nologin".as_slice(),
            false,
        ),
        (
            971,
            971,
            b"howy-ffmpeg".as_slice(),
            b"/bin/sh".as_slice(),
            false,
        ),
        (
            971,
            971,
            b"howy-ffmpeg".as_slice(),
            b"/usr/bin/nologin".as_slice(),
            true,
        ),
    ] {
        assert!(validate_drop_identity_metadata(
            rejected.0,
            rejected.1,
            rejected.2,
            b"Howy FFmpeg sandbox",
            b"/",
            rejected.3,
            rejected.4,
        )
        .is_err());
    }
}

fn fields(line: &str) -> Vec<&str> {
    line.split(':').collect()
}

fn number(text: &str) -> i64 {
    text.parse().unwrap_or(-1)
}

fn passwd(lines: &str) -> Vec<PasswdRecord> {
    lines
        .lines()
        .map(|line| {
            let parts = fields(line);
            PasswdRecord {
                name: parts[0].as_bytes().to_vec(),
                password: parts[1].as_bytes().to_vec(),
                uid: parts[2].parse().unwrap(),
                gid: parts[3].parse().unwrap(),
                gecos: parts[4].as_bytes().to_vec(),
                home: parts[5].as_bytes().to_vec(),
                shell: parts[6].as_bytes().to_vec(),
            }
        })
        .collect()
}

fn group(lines: &str) -> Vec<GroupRecord> {
    lines
        .lines()
        .map(|line| {
            let parts = fields(line);
            GroupRecord {
                name: parts[0].as_bytes().to_vec(),
                password: parts[1].as_bytes().to_vec(),
                gid: parts[2].parse().unwrap(),
                has_members: !parts[3].is_empty(),
            }
        })
        .collect()
}

fn shadow(lines: &str) -> Vec<ShadowRecord> {
    lines
        .lines()
        .map(|line| {
            let parts = fields(line);
            ShadowRecord {
                name: parts[0].as_bytes().to_vec(),
                password: parts[1].as_bytes().to_vec(),
                last_change: number(parts[2]),
                minimum: number(parts[3]),
                maximum: number(parts[4]),
                warning: number(parts[5]),
                inactive: number(parts[6]),
                expire: number(parts[7]),
                flag: u64::MAX,
            }
        })
        .collect()
}

#[test]
fn local_account_database_fixture_enforces_shadow_lock_and_private_primary_gid() {
    let conforming_passwd = concat_lines(&[
        "root:x:0:0:root:/root:/bin/sh",
        "howy-ffmpeg:x:971:971:Howy FFmpeg sandbox:/:/usr/bin/nologin",
    ]);
    let conforming_group = "root:x:0:\nhowy-ffmpeg:x:971:\n".to_string();
    let conforming_shadow =
        "root:!*:20000:::::1:\nhowy-ffmpeg:!*:20000:::::1:\n".to_string();
    assert_eq!(
        validate_local_account_files(
            &passwd(&conforming_passwd),
            &group(&conforming_group),
            &shadow(&conforming_shadow),
        )
        .unwrap(),
        (971, 971)
    );

    let conflicts = [
        (
            concat_lines(&[
                "other:x:971:1001:Other:/nonexistent:/usr/bin/nologin",
                "howy-ffmpeg:x:971:971:Howy FFmpeg sandbox:/:/usr/bin/nologin",
            ]),
            conforming_group.clone(),
            conforming_shadow.clone(),
        ),
        (
            "howy-ffmpeg:x:971:971:Howy FFmpeg sandbox:/:/bin/sh\n".to_string(),
            conforming_group.clone(),
            conforming_shadow.clone(),
        ),
        (
            concat_lines(&[
                "other:x:1001:971:Other:/nonexistent:/usr/bin/nologin",
                "howy-ffmpeg:x:971:971:Howy FFmpeg sandbox:/:/usr/bin/nologin",
            ]),
            conforming_group.clone(),
            conforming_shadow.clone(),
        ),
        (
            conforming_passwd.clone(),
            "root:x:0:\nhowy-ffmpeg:x:972:\n".to_string(),
            conforming_shadow.clone(),
        ),
        (
            conforming_passwd.clone(),
            "root:x:0:\nhowy-ffmpeg:x:971:other\n".to_string(),
            conforming_shadow.clone(),
        ),
        (
            conforming_passwd.clone(),
            conforming_group.clone(),
            "howy-ffmpeg:!:20000:::::1:\n".to_string(),
        ),
        (
            conforming_passwd.clone(),
            conforming_group.clone(),
            "howy-ffmpeg:!*:20000::::::\n".to_string(),
        ),
    ];
    for (index, (passwd_contents, group_contents, shadow_contents)) in
        conflicts.into_iter().enumerate()
    {
        assert!(
            validate_local_account_files(
                &passwd(&passwd_contents),
                &group(&group_contents),
                &shadow(&shadow_contents),
            )
            .is_err(),
            "conflicting local account fixture {index} was accepted"
        );
    }
    assert_eq!(
        validate_local_account_files(
            &passwd("root:x:0:0:root:/root:/bin/sh"),
            &group(&conforming_group),
            &shadow(&conforming_shadow),
        ),
        Err(AccountError::AbsentFromPasswd)
    );
    assert_eq!(
        validate_local_account_files(
            &passwd(&conforming_passwd),
            &group("root:x:0:"),
            &shadow(&conforming_shadow),
        ),
        Err(AccountError::GroupAbsent)
    );
    assert_eq!(
        validate_local_account_files(
            &passwd(&conforming_passwd),
            &group(&conforming_group),
            &shadow("root:!*:20000:::::1:"),
        ),
        Err(AccountError::ShadowAbsent)
    );
}

fn concat_lines(lines: &[&str]) -> String {
    lines.join("\n")
}

#[test]
fn account_databases_are_roots_and_not_writable_by_others() {
    assert!(validate_database_metadata(true, 0, 0o100_644, 0).is_ok());
    assert_eq!(
        validate_database_metadata(true, 0, 0o100_664, 0),
        Err(AccountError::DatabaseRejected)
    );
    assert_eq!(
        validate_database_metadata(true, 7, 0o100_644, 0),
        Err(AccountError::DatabaseRejected)
    );
}

#[test]
fn camera_policy_keeps_only_a_required_nonshared_device_group() {
    let base = drop_identity();
    assert_eq!(
        identity_for_camera_metadata(base, 0, 44, 0o660)
            .unwrap()
            .camera_gid,
        Some(44)
    );
    for (owner, group, mode) in [(971, 44, 0o600), (0, 971, 0o660), (0, 44, 0o666)] {
        assert_eq!(
            identity_for_camera_metadata(base, owner, group, mode)
                .unwrap()
                .camera_gid,
            None
        );
    }
    for group in [0, SHARED_NOBODY_ID] {
        assert!(identity_for_camera_metadata(base, 0, group, 0o660).is_err());
    }
    assert!(identity_for_camera_metadata(base, 0, 44, 0o640).is_err());
}

fn user() -> PasswdRecord {
    passwd("howy-ffmpeg:x:971:971:Howy FFmpeg sandbox:/:/usr/bin/nologin")
        .pop()
        .unwrap()
}

fn resolve(
    local: Result<(u32, u32), AccountError>,
    mut reply: impl FnMut(IdentityStage) -> IdentityReply,
) -> Result<DropIdentity, AccountError> {
    let mut step = begin_drop_identity(true, local);
    loop {
        match step {
            IdentityStep::Finished(result) => return result,
            IdentityStep::Perform(lookup) => {
                let answer = reply(lookup.stage);
                step = lookup.after(answer);
            }
        }
    }
}

fn agreeing(stage: IdentityStage) -> IdentityReply {
    match stage {
        IdentityStage::LookUpUser => IdentityReply::User(user()),
        IdentityStage::LookUpGroup => {
            IdentityReply::Group(group("howy-ffmpeg:x:971:").pop().unwrap())
        }
        IdentityStage::ReverseUser | IdentityStage::ReverseGroup => {
            IdentityReply::Name(b"howy-ffmpeg".to_vec())
        }
        IdentityStage::ListGroups => IdentityReply::Groups {
            count: 1,
            first: 971,
        },
    }
}

#[test]
fn identities_are_confirmed_both_ways() {
    assert_eq!(resolve(Ok((971, 971)), agreeing), Ok(drop_identity()));
    assert_eq!(
        resolve(Ok((972, 971)), agreeing),
        Err(AccountError::IdentitiesDisagree)
    );
    assert_eq!(
        resolve(Err(AccountError::ShadowRejected), agreeing),
        Err(AccountError::ShadowRejected)
    );
    for (missing, error) in [
        (IdentityStage::LookUpUser, AccountError::IdentityUnavailable),
        (IdentityStage::LookUpGroup, AccountError::GroupUnavailable),
        (IdentityStage::ReverseUser, AccountError::UidNotCanonical),
        (IdentityStage::ReverseGroup, AccountError::GidNotCanonical),
        (IdentityStage::ListGroups, AccountError::UnexpectedGroups),
    ] {
        assert_eq!(
            resolve(Ok((971, 971)), |stage| {
                if stage == missing {
                    IdentityReply::Missing
                } else {
                    agreeing(stage)
                }
            }),
            Err(error)
        );
        assert!(!error.message().is_empty());
    }
    assert!(matches!(
        begin_drop_identity(false, Ok((971, 971))),
        IdentityStep::Finished(Err(AccountError::NotPrivileged))
    ));
    assert_eq!(validate_ffmpeg_account(Ok(drop_identity())), Ok(()));
    assert_eq!(
        validate_ffmpeg_account(Err(AccountError::NotPrivileged)),
        Err(AccountError::NotPrivileged)
    );
}

#[test]
fn children_prove_that_they_cannot_go_back() {
    let identity = drop_identity();
    let mut probe = ChildProbe::UserAndGroupIds;
    let mut seen = vec![probe];
    let last = loop {
        let observed = match probe {
            ChildProbe::UserAndGroupIds => ChildObservation::Ids {
                uids: (971, 971, 971),
                gids: (971, 971, 971),
            },
            ChildProbe::SupplementaryGroups => ChildObservation::Groups { count: 0, first: 0 },
            ChildProbe::NoNewPrivileges => ChildObservation::NoNewPrivileges { value: 1 },
            _ => ChildObservation::Regain { refused: true },
        };
        match verify_child_identity(identity, probe, observed) {
            ChildStep::Probe(next) => {
                probe = next;
                seen.push(next);
            }
            other => break other,
        }
    };
    assert_eq!(last, ChildStep::Verified);
    assert_eq!(
        seen,
        [
            ChildProbe::UserAndGroupIds,
            ChildProbe::SupplementaryGroups,
            ChildProbe::NoNewPrivileges,
            ChildProbe::RegainUser,
            ChildProbe::RegainGroup,
            ChildProbe::RegainSupplementaryGroups,
        ]
    );
    assert_eq!(
        verify_child_identity(
            identity,
            ChildProbe::RegainUser,
            ChildObservation::Regain { refused: false },
        ),
        ChildStep::Rejected
    );
    assert_eq!(
        verify_child_identity(
            identity,
            ChildProbe::UserAndGroupIds,
            ChildObservation::Ids {
                uids: (971, 0, 971),
                gids: (971, 971, 971),
            },
        ),
        ChildStep::Rejected
    );
    assert_eq!(
        verify_child_identity(identity, ChildProbe::NoNewPrivileges, ChildObservation::Failed),
        ChildStep::Rejected
    );
    assert!(verify_inaccessible(AccessAttempt::Denied));
    assert!(!verify_inaccessible(AccessAttempt::Opened));
    assert!(!verify_inaccessible(AccessAttempt::FailedOtherwise));
}

#[test]
fn groups_are_dropped_before_the_user() {
    assert_eq!(
        child_pre_exec(drop_identity(), true),
        [
            PreExecStep::SetParentDeathSignal,
            PreExecStep::CheckParent,
            PreExecStep::ForbidNewPrivileges,
            PreExecStep::CloseDescriptorsOnExec,
            PreExecStep::KeepCameraDescriptor,
            PreExecStep::SetGroups { camera_gid: None },
            PreExecStep::SetGroup { gid: 971 },
            PreExecStep::SetUser { uid: 971 },
            PreExecStep::VerifyIdentity,
            PreExecStep::ReopenCamera,
            PreExecStep::VerifyDirectoryInaccessible,
            PreExecStep::VerifyCredentialInaccessible,
            PreExecStep::RestoreParentDeathSignal,
        ]
    );
}

#[test]
fn cached_keys_are_out_of_the_childs_reach() {
    let probe = credential_probe(Some(b"/run/credentials/howy.service")).unwrap();
    assert_eq!(probe.directory, b"/run/credentials/howy.service");
    assert_eq!(
        probe.credential,
        b"/run/credentials/howy.service/howy.storage.mode1.epoch1"
    );
    assert_eq!(
        credential_probe(None).unwrap_err(),
        ChildPolicyError::DirectoryUnavailable
    );
    assert!(credential_probe(Some(b"relative")).is_err());
    assert_eq!(
        validate_absolute_path(b"/a/../b"),
        Err(ChildPolicyError::AmbiguousPath)
    );

    let policy = DaemonChildPolicy::for_mode(
        EmbeddingSecurityMode::AeadCached,
        true,
        Ok(drop_identity()),
        Ok(CredentialProbe {
            directory: b"/run/c".to_vec(),
            credential: b"/run/c/k".to_vec(),
        }),
    );
    assert!(policy.ffmpeg_available());
    assert_eq!(policy.credential_paths().unwrap().credential, b"/run/c/k");
    let camera = policy.open_camera(9, true, 0, 44, 0o660).unwrap();
    assert_eq!(camera.child_path(), "/proc/self/fd/9");
    assert_eq!(camera.identity.camera_gid, Some(44));
    let plan = policy.spawn_ffmpeg(camera).unwrap();
    assert!(plan.contains(&PreExecStep::VerifyCredentialInaccessible));
    assert!(plan.contains(&PreExecStep::SetGroups {
        camera_gid: Some(44),
    }));
    assert_eq!(
        policy.open_camera(9, false, 0, 44, 0o660).unwrap_err(),
        ChildPolicyError::NotCharacterDevice
    );

    let without_probe = DaemonChildPolicy::for_mode(
        EmbeddingSecurityMode::AeadCached,
        true,
        Ok(drop_identity()),
        Err(ChildPolicyError::CredentialProbeUnavailable),
    );
    assert!(!without_probe.ffmpeg_available());
}
