use signal_cli::updater::{
    artifact_url, check_manifest, check_manifest_length, manifest_url, release_target,
    same_checksum, success_notice, temporary_name, updates_disabled_value, validate_manifest,
    verify_version, ManagedInstall, ManifestError, PendingUpdate, ReleaseArtifact,
    ReleaseManifest, UpdateError, Version, LATEST_RELEASE, MANAGED_MARKER, MAX_ARTIFACT_BYTES,
    MAX_MANIFEST_BYTES, TEMPORARY_ATTEMPTS,
};

fn manifest(version: &str, target: &str) -> ReleaseManifest {
    ReleaseManifest {
        schema: 1,
        version: Version::parse(version).unwrap(),
        artifacts: vec![(
            target.into(),
            ReleaseArtifact {
                name: format!("signal-{target}"),
                sha256: "a".repeat(64),
            },
        )],
    }
}

#[test]
fn accepts_only_newer_stable_versions() {
    let current = Version::parse("1.2.3").unwrap();
    assert!(
        validate_manifest(&manifest("1.2.4", "target"), &current, "target")
            .unwrap()
            .is_some()
    );
    assert!(
        validate_manifest(&manifest("1.2.3", "target"), &current, "target")
            .unwrap()
            .is_none()
    );
    assert!(
        validate_manifest(&manifest("2.0.0-alpha.1", "target"), &current, "target")
            .unwrap()
            .is_none()
    );
}

#[test]
fn rejects_bad_artifact_metadata() {
    let current = Version::parse("1.0.0").unwrap();
    let mut release = manifest("1.1.0", "target");
    release.artifacts[0].1.name = "../signal".into();
    assert!(validate_manifest(&release, &current, "target").is_err());

    let mut release = manifest("1.1.0", "target");
    release.artifacts[0].1.sha256 = "not-a-checksum".into();
    assert!(validate_manifest(&release, &current, "target").is_err());
}

#[test]
fn refused_manifests_say_why() {
    let current = Version::parse("1.0.0").unwrap();
    let mut release = manifest("1.1.0", "target");
    release.schema = 2;
    let error = validate_manifest(&release, &current, "target").unwrap_err();
    assert_eq!(error, ManifestError::Schema(2));
    assert_eq!(error.message(), "unsupported release manifest schema 2");

    let release = manifest("1.1.0", "target");
    let error = validate_manifest(&release, &current, "other").unwrap_err();
    assert_eq!(error.message(), "release has no artifact for other");

    let mut release = manifest("1.1.0", "target");
    release.artifacts[0].1.name = "../\"signal\"".into();
    let error = validate_manifest(&release, &current, "target").unwrap_err();
    assert_eq!(
        error.message(),
        "unexpected artifact name \"../\\\"signal\\\"\""
    );

    let mut release = manifest("1.1.0", "target");
    release.artifacts[0].1.sha256 = "é".repeat(32);
    let error = validate_manifest(&release, &current, "target").unwrap_err();
    assert_eq!(error, ManifestError::Checksum);
    assert_eq!(error.message(), "invalid artifact checksum");
}

#[test]
fn what_is_not_news_is_not_looked_at_further() {
    let mut release = manifest("1.1.0", "target");
    release.artifacts.clear();
    assert_eq!(check_manifest(&release, true, "target"), Ok(None));
    assert_eq!(
        check_manifest(&release, false, "target"),
        Err(ManifestError::NoArtifact("target".into()))
    );
    let release = manifest("1.1.0", "target");
    let (version, artifact) = check_manifest(&release, false, "target").unwrap().unwrap();
    assert_eq!(version, release.version);
    assert_eq!(artifact, release.artifacts[0].1);
}

#[test]
fn versions_are_ordered_by_number_and_not_by_text() {
    let offered = |version: &str, current: &str| {
        validate_manifest(
            &manifest(version, "target"),
            &Version::parse(current).unwrap(),
            "target",
        )
        .unwrap()
        .is_some()
    };
    assert!(offered("1.10.0", "1.9.9"));
    assert!(offered("2.0.0", "1.99.99"));
    assert!(!offered("1.9.9", "1.10.0"));
    assert!(offered("1.0.0", "1.0.0-beta.2"));
}

#[test]
fn versions_are_read_and_written() {
    let version = Version::parse("1.2.3-rc.1+linux").unwrap();
    assert_eq!((version.major, version.minor, version.patch), (1, 2, 3));
    assert_eq!(version.pre, "rc.1");
    assert_eq!(version.build, "linux");
    assert_eq!(version.text(), "1.2.3-rc.1+linux");
    assert_eq!(Version::parse("10.20.30").unwrap().text(), "10.20.30");
    assert_eq!(Version::parse("1.2"), None);
    assert_eq!(Version::parse("v1.2.3"), None);
}

#[test]
fn opt_out_requires_the_documented_value() {
    assert!(updates_disabled_value(Some("1")));
    assert!(!updates_disabled_value(Some("true")));
    assert!(!updates_disabled_value(None));
}

#[test]
fn detects_only_marked_managed_installations() {
    let executable = String::from("/opt/signal/signal");
    let directory = Some(String::from("/opt/signal"));
    assert!(
        ManagedInstall::from_executable(executable.clone(), directory.clone(), false).is_none()
    );
    assert!(ManagedInstall::from_executable(executable.clone(), None, true).is_none());
    let install = ManagedInstall::from_executable(executable, directory, true).unwrap();
    assert_eq!(install.lock_path(), "/opt/signal/.signal-update.lock");
    assert_eq!(
        install.success_path(),
        "/opt/signal/.signal-update-success.json"
    );
    assert_eq!(
        ManagedInstall::marker_path("/opt/signal"),
        format!("/opt/signal/{MANAGED_MARKER}")
    );
}

#[test]
fn success_notice_asks_for_a_restart() {
    let installed = Version::parse("2.0.0").unwrap();
    assert_eq!(
        success_notice(&installed, &Version::parse("1.0.0").unwrap()),
        "Updated to v2.0.0 — restart to use it"
    );
    assert_eq!(success_notice(&installed, &installed), "Updated to v2.0.0");
}

#[test]
fn releases_exist_for_four_targets() {
    assert_eq!(
        release_target("x86_64", "macos"),
        Some("x86_64-apple-darwin")
    );
    assert_eq!(
        release_target("aarch64", "macos"),
        Some("aarch64-apple-darwin")
    );
    assert_eq!(
        release_target("x86_64", "linux"),
        Some("x86_64-unknown-linux-gnu")
    );
    assert_eq!(
        release_target("aarch64", "linux"),
        Some("aarch64-unknown-linux-gnu")
    );
    assert_eq!(release_target("x86_64", "windows"), None);
    assert_eq!(release_target("riscv64", "linux"), None);
}

fn pending(checksum: &str) -> PendingUpdate {
    PendingUpdate::begin(
        Version::parse("9.0.0").unwrap(),
        ReleaseArtifact {
            name: "signal-test-target".into(),
            sha256: checksum.into(),
        },
        None,
    )
    .unwrap()
}

#[test]
fn downloads_are_held_against_their_checksum() {
    // The digest of "abc" as the standard for SHA-256 gives it.
    let checksum = "BA7816BF8F01CFEA414140DE5DAE2223B00361A396177A9CB410FF61F20015AD";
    let mut update = pending(checksum);
    update.receive(b"a").unwrap();
    assert_eq!(update.check(), Err(UpdateError::ChecksumMismatch));
    update.receive(b"bc").unwrap();
    assert_eq!(update.received, b"abc");
    assert_eq!(update.check(), Ok(()));
    assert_eq!(pending(&"0".repeat(64)).check(), Err(UpdateError::ChecksumMismatch));
    assert!(same_checksum(&[0xab, 0x01], "AB01"));
    assert!(!same_checksum(&[0xab, 0x01], "AB02"));
}

#[test]
fn large_downloads_are_refused() {
    let artifact = ReleaseArtifact {
        name: "signal-test-target".into(),
        sha256: "0".repeat(64),
    };
    let begin = |length| {
        PendingUpdate::begin(
            Version::parse("9.0.0").unwrap(),
            artifact.clone(),
            Some(length),
        )
        .map(|update| update.received.len())
    };
    assert_eq!(begin(MAX_ARTIFACT_BYTES), Ok(0));
    assert_eq!(
        begin(MAX_ARTIFACT_BYTES + 1),
        Err(UpdateError::ArtifactTooLarge)
    );
    assert_eq!(check_manifest_length(Some(MAX_MANIFEST_BYTES)), Ok(()));
    assert_eq!(check_manifest_length(None), Ok(()));
    assert_eq!(
        check_manifest_length(Some(MAX_MANIFEST_BYTES + 1)),
        Err(UpdateError::ManifestTooLarge)
    );
}

#[test]
fn the_downloaded_program_names_its_version() {
    let version = Version::parse("9.0.0").unwrap();
    assert_eq!(verify_version(true, "signal 9.0.0\n", &version), Ok(()));
    assert_eq!(
        verify_version(true, "signal 8.0.0\n", &version),
        Err(UpdateError::UnexpectedVersion)
    );
    assert_eq!(
        verify_version(true, " \n", &version),
        Err(UpdateError::UnexpectedVersion)
    );
    assert_eq!(
        verify_version(false, "signal 9.0.0\n", &version),
        Err(UpdateError::VersionCheckFailed)
    );
}

#[test]
fn update_errors_are_told_apart() {
    let texts: Vec<String> = [
        UpdateError::ManifestTooLarge,
        UpdateError::ArtifactTooLarge,
        UpdateError::ChecksumMismatch,
        UpdateError::VersionCheckFailed,
        UpdateError::UnexpectedVersion,
        UpdateError::NoTemporaryFile,
    ]
    .iter()
    .map(UpdateError::message)
    .collect();
    assert_eq!(
        texts,
        vec![
            "release manifest is too large",
            "release artifact is too large",
            "downloaded artifact checksum does not match release manifest",
            "downloaded binary failed its version check",
            "downloaded binary reports an unexpected version",
            "could not allocate a temporary update file",
        ]
    );
}

#[test]
fn names_and_addresses_of_an_update() {
    assert_eq!(temporary_name(4711, 3), ".signal-update-4711-3");
    assert_eq!(TEMPORARY_ATTEMPTS, 100);
    assert_eq!(
        manifest_url(LATEST_RELEASE),
        "https://github.com/emilianscheel/signal-cli/releases/latest/download/release.json"
    );
    let release = manifest("1.1.0", "target");
    assert_eq!(
        artifact_url("http://host", &release.artifacts[0].1),
        "http://host/signal-target"
    );
}
