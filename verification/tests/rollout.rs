use libmcp::rollout::{
    BinaryFingerprint, ReleaseError, ReleaseId, ReleaseManifest, ReleaseObservation, ReleasePointer, ReleaseProvenance,
    ReleaseRuntime, StateCompatibility, check_private_executable, check_private_file, expect_gate_byte,
    path_contains_target, release_id_from_digest, validate_env_name, validate_server_name, verify_release,
};

fn provenance(root: &str) -> ReleaseProvenance {
    ReleaseProvenance::try_new(
        root,
        "1111111111111111111111111111111111111111",
        ReleaseId::try_new(&"2".repeat(64)).expect("digest"),
        "rustc test",
        "2026-08-09T00:00:00Z",
    )
    .expect("provenance")
}

#[test]
fn state_epochs_govern_forward_and_reverse_compatibility() {
    let epoch_1 = StateCompatibility::versioned(&[1], 1).expect("epoch 1");
    let bridge = StateCompatibility::versioned(&[1, 2], 1).expect("bridge");
    let epoch_2 = StateCompatibility::versioned(&[1, 2], 2).expect("epoch 2");

    assert!(bridge.accepts(&epoch_1));
    assert!(epoch_2.accepts(&bridge));
    assert!(bridge.accepts(&epoch_2));
    assert!(!epoch_1.accepts(&epoch_2));
    assert!(!StateCompatibility::Stateless.accepts(&epoch_1));
}

#[test]
fn versioned_contract_must_read_its_own_writes() {
    assert_eq!(StateCompatibility::versioned(&[1, 2], 3), Err(ReleaseError::UnreadableWriteEpoch));
    assert!(StateCompatibility::Stateless.accepts(&StateCompatibility::Stateless));
    let epoch = StateCompatibility::versioned(&[4], 4).expect("epoch");
    assert!(epoch.accepts(&epoch));
}

#[test]
fn release_ids_are_lowercase_sha256_digests() {
    assert!(ReleaseId::try_new(&"a".repeat(64)).is_ok());
    assert_eq!(ReleaseId::try_new(&"A".repeat(64)), Err(ReleaseError::InvalidReleaseId));
    assert_eq!(ReleaseId::try_new(&"a".repeat(63)), Err(ReleaseError::InvalidReleaseId));
    assert_eq!(ReleaseId::try_new("g"), Err(ReleaseError::InvalidReleaseId));
    let digest = ReleaseId::digest_bytes(b"abc").expect("digest");
    assert_eq!(digest.as_str(), "ba7816bf8f01cfea414140de5dae2223b00361a396177a9cb410ff61f20015ad");
    let empty = ReleaseId::digest_bytes(b"").expect("digest");
    assert_eq!(empty.as_str(), "e3b0c44298fc1c149afbf4c8996fb92427ae41e4649b934ca495991b7852b855");
    assert_eq!(release_id_from_digest(&[0u8; 31]), Err(ReleaseError::InvalidDigestWidth));
    let rendered = release_id_from_digest(&[0xabu8; 32]).expect("rendered");
    assert_eq!(rendered.as_str(), "ab".repeat(32));
}

#[test]
fn provenance_requires_absolute_repository_and_full_commit() {
    let lock = || ReleaseId::try_new(&"2".repeat(64)).expect("digest");
    assert_eq!(
        ReleaseProvenance::try_new("relative", &"1".repeat(40), lock(), "rustc", "now"),
        Err(ReleaseError::RepositoryNotAbsolute)
    );
    assert_eq!(
        ReleaseProvenance::try_new("/repo", &"1".repeat(39), lock(), "rustc", "now"),
        Err(ReleaseError::InvalidCommit)
    );
    assert_eq!(
        ReleaseProvenance::try_new("/repo", &"1".repeat(40), lock(), "", "now"),
        Err(ReleaseError::EmptyBuildField)
    );
    let upper = ReleaseProvenance::try_new("/repo", &"ABCDEF12".repeat(8), lock(), "rustc", "now").expect("upper");
    assert_eq!(upper.commit(), "abcdef12".repeat(8));
    assert_eq!(upper.repository(), "/repo");
}

#[test]
fn manifests_validate_server_executable_and_arguments() {
    let generation = ReleaseId::digest_bytes(b"mail release").expect("generation");
    let binary = ReleaseId::digest_bytes(b"binary").expect("binary");
    let manifest = ReleaseManifest::try_new(
        "mail",
        generation.clone(),
        binary.clone(),
        "/srv/mail/releases/x/server",
        vec!["mcp".to_owned(), "serve".to_owned()],
        StateCompatibility::Stateless,
        provenance("/repo"),
    )
    .expect("manifest");
    assert_eq!(manifest.server(), "mail");
    assert_eq!(manifest.arguments().len(), 2);
    assert!(verify_release(&manifest, b"binary").is_ok());
    assert_eq!(verify_release(&manifest, b"other"), Err(ReleaseError::DigestMismatch));
    assert_eq!(manifest.check_selected("papercuts", generation.as_str()), Err(ReleaseError::ServerMismatch));
    assert_eq!(manifest.check_selected("mail", "elsewhere"), Err(ReleaseError::DirectoryGenerationMismatch));
    assert!(manifest.check_selected("mail", generation.as_str()).is_ok());

    assert_eq!(
        ReleaseManifest::try_new(
            "bad name",
            generation.clone(),
            binary.clone(),
            "/x",
            Vec::new(),
            StateCompatibility::Stateless,
            provenance("/repo"),
        ),
        Err(ReleaseError::InvalidServerName)
    );
    assert_eq!(
        ReleaseManifest::try_new(
            "mail",
            generation.clone(),
            binary.clone(),
            "relative/server",
            Vec::new(),
            StateCompatibility::Stateless,
            provenance("/repo"),
        ),
        Err(ReleaseError::ExecutableNotAbsolute)
    );
    assert_eq!(
        ReleaseManifest::try_new(
            "mail",
            generation.clone(),
            binary.clone(),
            "/x",
            vec!["nul\0byte".to_owned()],
            StateCompatibility::Stateless,
            provenance("/repo"),
        ),
        Err(ReleaseError::ArgumentContainsNul)
    );
    assert_eq!(
        ReleaseManifest::from_document(
            2,
            "mail",
            generation,
            binary,
            "/x",
            Vec::new(),
            StateCompatibility::Stateless,
            provenance("/repo"),
        ),
        Err(ReleaseError::UnsupportedManifestSchema(2))
    );
}

#[test]
fn pointers_select_absolute_manifests() {
    let pointer = ReleasePointer::try_new("/srv/mail/releases/x/release.toml").expect("pointer");
    assert_eq!(pointer.manifest(), "/srv/mail/releases/x/release.toml");
    assert_eq!(pointer.schema(), 1);
    assert_eq!(ReleasePointer::try_new("release.toml"), Err(ReleaseError::ManifestNotAbsolute));
    assert_eq!(ReleasePointer::from_document(7, "/m"), Err(ReleaseError::UnsupportedPointerSchema(7)));
}

#[test]
fn names_and_paths_follow_portable_rules() {
    assert!(validate_server_name("mail-server_1.2").is_ok());
    assert_eq!(validate_server_name(""), Err(ReleaseError::InvalidServerName));
    assert_eq!(validate_server_name(&"a".repeat(65)), Err(ReleaseError::InvalidServerName));
    assert!(validate_env_name("SNAPSHOT_PATH_2").is_ok());
    assert_eq!(validate_env_name("snapshot"), Err(ReleaseError::InvalidEnvironmentName));
    assert_eq!(validate_env_name(""), Err(ReleaseError::InvalidEnvironmentName));
    assert!(path_contains_target("/work/project/target/debug/server"));
    assert!(path_contains_target("target"));
    assert!(!path_contains_target("/work/targets/server"));
    assert!(!path_contains_target("/work/my-target/server"));
    assert!(check_private_file(true, 7, 7, 0o600).is_ok());
    assert_eq!(check_private_file(true, 7, 7, 0o620), Err(ReleaseError::FileNotPrivate));
    assert!(check_private_executable(true, 7, 7, 0o700).is_ok());
    assert_eq!(check_private_executable(true, 7, 7, 0o600), Err(ReleaseError::ExecutableNotPrivate));
    assert_eq!(check_private_executable(true, 7, 7, 0o4700), Err(ReleaseError::ExecutableNotPrivate));
    assert_eq!(expect_gate_byte(b'R', b'R'), Ok(()));
    assert_eq!(expect_gate_byte(b'X', b'R'), Err(ReleaseError::UnexpectedGateByte(b'X')));
}

fn fingerprint(inode: u64) -> BinaryFingerprint {
    BinaryFingerprint { length_bytes: 10, modified_secs: 5, modified_nanos: 0, device: 1, inode }
}

#[test]
fn standalone_replacement_must_settle_before_handoff() {
    let mut runtime = ReleaseRuntime::discover("mail", None, None, Some(""), Some(("/opt/mail/server", fingerprint(1))))
        .expect("standalone");
    assert!(!runtime.is_managed());
    assert!(runtime.launch_path_stable());
    assert_eq!(runtime.apply_standalone_observation(Some(fingerprint(1)), true), ReleaseObservation::Incumbent);
    assert_eq!(runtime.apply_standalone_observation(Some(fingerprint(2)), true), ReleaseObservation::SuccessorSettling);
    assert_eq!(runtime.apply_standalone_observation(Some(fingerprint(2)), false), ReleaseObservation::SuccessorSettling);
    assert_eq!(runtime.apply_standalone_observation(Some(fingerprint(2)), true), ReleaseObservation::SuccessorReady);
    assert!(runtime.successor().is_some());
    assert_eq!(runtime.apply_standalone_observation(None, true), ReleaseObservation::SuccessorSettling);
    assert_eq!(runtime.apply_standalone_observation(Some(fingerprint(1)), true), ReleaseObservation::Incumbent);
    assert!(runtime.successor().is_none());
    assert!(ReleaseObservation::SuccessorSettling.rollout_pending());
    assert!(!ReleaseObservation::SuccessorSettling.rollout_ready());
    assert!(!ReleaseObservation::Incumbent.rollout_pending());
}

#[test]
fn managed_successors_are_verified_before_handoff() {
    let incumbent = ReleaseId::digest_bytes(b"v1").expect("v1");
    let mut runtime = ReleaseRuntime::discover(
        "mail",
        Some("/srv/mail/current.json"),
        Some(incumbent.as_str()),
        Some("/tmp/gate"),
        None,
    )
    .expect("managed");
    assert!(runtime.is_managed());
    assert!(runtime.launch_path_stable());
    assert_eq!(runtime.generation().map(ReleaseId::as_str), Some(incumbent.as_str()));
    let next = ReleaseId::digest_bytes(b"v2").expect("v2");
    let binary = ReleaseId::digest_bytes(b"executable v2").expect("binary");
    let release = ReleaseManifest::try_new(
        "mail",
        next.clone(),
        binary,
        "/srv/mail/releases/v2/server",
        Vec::new(),
        StateCompatibility::Stateless,
        provenance("/repo"),
    )
    .expect("release");
    assert!(runtime.selected_release_needs_verification(&release));
    assert_eq!(runtime.observe_managed(&release, None), Err(ReleaseError::SuccessorUnverified));
    assert_eq!(runtime.observe_managed(&release, Some(b"tampered")), Err(ReleaseError::DigestMismatch));
    assert_eq!(runtime.observe_managed(&release, Some(b"executable v2")), Ok(ReleaseObservation::SuccessorReady));
    assert!(!runtime.selected_release_needs_verification(&release));
    let plan = runtime.handoff_plan("SNAPSHOT", 1).expect("plan").expect("armed");
    assert_eq!(plan.executable(), "/srv/mail/releases/v2/server");
    assert_eq!(plan.channel(), Some("/srv/mail/current.json"));
    assert_eq!(runtime.handoff_plan("snapshot", 1).err(), Some(ReleaseError::InvalidEnvironmentName));
    assert_eq!(runtime.handoff_plan("SNAPSHOT", 0).err(), Some(ReleaseError::ZeroHandoffTimeout));
    assert_eq!(runtime.take_successor_gate(), Some("/tmp/gate".to_owned()));
    assert_eq!(runtime.take_successor_gate(), None);
}

#[test]
fn release_environment_must_be_complete() {
    assert_eq!(
        ReleaseRuntime::discover("mail", Some("/c"), None, None, None).err(),
        Some(ReleaseError::IncompleteManagedEnvironment)
    );
    assert_eq!(
        ReleaseRuntime::discover("mail", Some("relative"), Some(&"a".repeat(64)), None, None).err(),
        Some(ReleaseError::ChannelNotAbsolute)
    );
    assert_eq!(
        ReleaseRuntime::discover("mail", Some("/c"), Some("zz"), None, None).err(),
        Some(ReleaseError::InvalidReleaseId)
    );
    assert_eq!(
        ReleaseRuntime::discover("", None, None, None, None).err(),
        Some(ReleaseError::InvalidServerName)
    );
    let runtime = ReleaseRuntime::discover("mail", None, None, None, Some(("/w/target/debug/mail", fingerprint(3))))
        .expect("standalone");
    assert!(!runtime.launch_path_stable());
    assert!(runtime.handoff_plan("SNAPSHOT", 1).expect("plan").is_none());
}
