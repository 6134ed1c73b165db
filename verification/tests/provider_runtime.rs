use swarm_cli::provider_runtime::{
    canonical_hash, download_url_from, ensure_curseforge_status, safe_filename, validate_api_key,
    validate_curseforge_file, verify_canonical_hashes, CanonicalHashAlgorithm, CanonicalProviderArtifact,
    CanonicalProviderHash, CurseForgeFile, CurseForgeFileError, CurseForgeFileHash, HashCheckError, StatusFailure,
    validate_metadata_headers, validate_metadata_value, HeaderSize, MetadataLimit, MetadataValue,
    MAX_PROVIDER_METADATA_STRING_BYTES, acquisition_step, check_artifact_size, AcquisitionError, AcquisitionStep,
    CanonicalPackage, PackageSource, ProviderName,
};
use swarm_cli::server_mods::{ArtifactSide, InstalledServerMod, ModComponentKind, ModEnvironment};

fn curseforge_artifact() -> CanonicalProviderArtifact {
    CanonicalProviderArtifact {
        file_name: "example.jar".into(),
        file_size: Some(3),
        hashes: vec![
            CanonicalProviderHash {
                algorithm: CanonicalHashAlgorithm::Sha1,
                digest_hex: "a9993e364706816aba3e25717850c26c9cd0d89d".into(),
            },
            CanonicalProviderHash {
                algorithm: CanonicalHashAlgorithm::Md5,
                digest_hex: "900150983cd24fb0d6963f7d28e17f72".into(),
            },
        ],
    }
}

fn curseforge_file() -> CurseForgeFile {
    CurseForgeFile {
        id: Some(456),
        mod_id: Some(123),
        file_name: Some("example.jar".into()),
        file_length: Some(3),
        hashes: vec![
            CurseForgeFileHash { algo: Some(1), value: Some("a9993e364706816aba3e25717850c26c9cd0d89d".into()) },
            CurseForgeFileHash { algo: Some(2), value: Some("900150983cd24fb0d6963f7d28e17f72".into()) },
        ],
    }
}

#[test]
fn runtime_api_key_rejects_header_injection() {
    assert!(validate_api_key("secret").is_ok());
    assert!(validate_api_key("secret\nforwarded: value").is_err());
}

#[test]
fn api_key_must_be_present_and_free_of_control_characters() {
    assert!(validate_api_key("").is_err());
    assert!(validate_api_key("key\u{7f}").is_err());
    assert!(validate_api_key("key\u{85}").is_err());
    assert!(validate_api_key("kéy with spaces").is_ok());
    assert_eq!(
        validate_api_key("\t").unwrap_err().message(),
        "SWARMCRAFT_CURSEFORGE_API_KEY contains invalid control characters"
    );
}

#[test]
fn curseforge_exact_identity_and_provider_metadata_must_match() {
    let file = curseforge_file();
    validate_curseforge_file(&file, 123, 456, &curseforge_artifact()).unwrap();
    assert!(validate_curseforge_file(&file, 123, 457, &curseforge_artifact()).is_err());
}

#[test]
fn curseforge_file_checks_fail_in_order() {
    let artifact = curseforge_artifact();
    let mut file = curseforge_file();
    file.id = None;
    assert_eq!(validate_curseforge_file(&file, 123, 456, &artifact), Err(CurseForgeFileError::MissingId));
    let mut file = curseforge_file();
    file.file_name = Some("   ".into());
    assert_eq!(validate_curseforge_file(&file, 123, 456, &artifact), Err(CurseForgeFileError::MissingFileName));
    let mut file = curseforge_file();
    file.file_name = Some("../evil.jar".into());
    assert_eq!(validate_curseforge_file(&file, 123, 456, &artifact), Err(CurseForgeFileError::UnsafeFileName));
    let mut file = curseforge_file();
    file.file_name = Some("other.jar".into());
    assert_eq!(validate_curseforge_file(&file, 123, 456, &artifact), Err(CurseForgeFileError::FileNameChanged));
    let mut file = curseforge_file();
    file.file_length = Some(4);
    assert_eq!(validate_curseforge_file(&file, 123, 456, &artifact), Err(CurseForgeFileError::SizeChanged));
    let mut file = curseforge_file();
    file.hashes[1].value = Some("00".into());
    assert_eq!(validate_curseforge_file(&file, 123, 456, &artifact), Err(CurseForgeFileError::HashChanged));
    let mut file = curseforge_file();
    file.hashes[0].value = Some("A9993E364706816ABA3E25717850C26C9CD0D89D".into());
    file.hashes[1].value = None;
    assert_eq!(validate_curseforge_file(&file, 123, 456, &artifact), Ok(()));
}

#[test]
fn strong_canonical_hash_verification_rejects_wrong_bytes() {
    let hashes = vec![CanonicalProviderHash {
        algorithm: CanonicalHashAlgorithm::Sha1,
        digest_hex: "0000000000000000000000000000000000000000".into(),
    }];
    assert!(verify_canonical_hashes(b"abc", &hashes).is_err());
}

#[test]
fn md5_only_provider_identity_requires_manual_runtime_remediation() {
    let hashes = vec![CanonicalProviderHash {
        algorithm: CanonicalHashAlgorithm::Md5,
        digest_hex: "900150983cd24fb0d6963f7d28e17f72".into(),
    }];
    let error = verify_canonical_hashes(b"abc", &hashes).unwrap_err().message();
    assert!(error.contains("MD5-only"));
}

#[test]
fn strong_digests_of_the_right_bytes_are_accepted() {
    let hashes = vec![
        CanonicalProviderHash {
            algorithm: CanonicalHashAlgorithm::Sha1,
            digest_hex: "A9993E364706816ABA3E25717850C26C9CD0D89D".into(),
        },
        CanonicalProviderHash {
            algorithm: CanonicalHashAlgorithm::Sha256,
            digest_hex: "ba7816bf8f01cfea414140de5dae2223b00361a396177a9cb410ff61f20015ad".into(),
        },
        CanonicalProviderHash {
            algorithm: CanonicalHashAlgorithm::Sha512,
            digest_hex: "ddaf35a193617abacc417349ae20413112e6fa4e89a97ea20a9eeee64b55d39a2192992a274fc1a836ba3c23a3feebbd454d4423643ce80e2a9ac94fa54ca49f".into(),
        },
        CanonicalProviderHash { algorithm: CanonicalHashAlgorithm::Md5, digest_hex: "ignored".into() },
    ];
    assert_eq!(verify_canonical_hashes(b"abc", &hashes), Ok(()));
    assert_eq!(
        verify_canonical_hashes(b"abd", &hashes),
        Err(HashCheckError::Mismatch { algorithm: CanonicalHashAlgorithm::Sha1 })
    );
    assert_eq!(verify_canonical_hashes(b"abc", &[]), Err(HashCheckError::NoHashes));
    assert_eq!(canonical_hash(&hashes, CanonicalHashAlgorithm::Sha256).as_deref(), Some(hashes[1].digest_hex.as_str()));
    assert_eq!(canonical_hash(&hashes[..1], CanonicalHashAlgorithm::Md5), None);
}

#[test]
fn runtime_metadata_and_filename_limits_fail_closed() {
    let huge = MetadataValue::Object(vec![("text".len(), MetadataValue::Text("x".repeat(MAX_PROVIDER_METADATA_STRING_BYTES + 1).len()))]);
    assert!(validate_metadata_value(&huge).unwrap_err().message().contains("response_too_large"));
    for invalid in ["../evil.jar", "..\\evil.jar", "C:\\evil.jar", "\\\\server\\evil.jar", "NUL.jar"] {
        assert!(safe_filename(invalid).is_err(), "accepted {invalid}");
    }
    assert!(safe_filename("safe-runtime.jar").is_ok());
}

#[test]
fn portable_jar_names_follow_every_rule() {
    assert!(safe_filename("Mod.JAR").is_ok());
    assert!(safe_filename(".jar").is_err());
    assert!(safe_filename(" mod.jar").is_err());
    assert!(safe_filename("mod.zip").is_err());
    assert!(safe_filename("com1.jar").is_err());
    assert!(safe_filename("lpt9.tar.jar").is_err());
    assert!(safe_filename("com0.jar").is_ok());
    assert!(safe_filename("console.jar").is_ok());
    assert!(safe_filename(&format!("{}.jar", "a".repeat(251))).is_ok());
    assert!(safe_filename(&format!("{}.jar", "a".repeat(252))).is_err());
    assert!(safe_filename(&format!("{}.jar", "é".repeat(126))).is_err());
    assert!(safe_filename(&format!("{}.jar", "é".repeat(125))).is_ok());
}

#[test]
fn provider_statuses_are_classified() {
    assert!(ensure_curseforge_status(204, "files").is_ok());
    let e = ensure_curseforge_status(403, "files").unwrap_err();
    assert_eq!(e.failure, StatusFailure::KeyRejected);
    assert_eq!(e.message(), "CurseForge rejected SWARMCRAFT_CURSEFORGE_API_KEY while requesting files");
    assert_eq!(ensure_curseforge_status(404, "files").unwrap_err().failure, StatusFailure::NotFound);
    assert_eq!(ensure_curseforge_status(429, "files").unwrap_err().failure, StatusFailure::RateLimited);
    let e = ensure_curseforge_status(503, "files").unwrap_err();
    assert_eq!(e.message(), "CurseForge is unavailable while requesting files (HTTP 503)");
    let e = ensure_curseforge_status(302, "files").unwrap_err();
    assert_eq!(e.message(), "CurseForge request for files failed with HTTP 302");
    assert_eq!(download_url_from(404, Some("x".into())).unwrap(), None);
    assert_eq!(download_url_from(200, Some("  https://x  ".into())).unwrap().as_deref(), Some("https://x"));
    assert_eq!(download_url_from(200, Some("   ".into())).unwrap(), None);
    assert_eq!(download_url_from(500, None).unwrap_err().failure, StatusFailure::ProviderUnavailable);
}

fn scalars(count: usize) -> Vec<MetadataValue> {
    (0..count).map(|_| MetadataValue::Scalar).collect()
}

fn nested_arrays(levels: usize) -> MetadataValue {
    let mut value = MetadataValue::Scalar;
    for _ in 0..levels {
        value = MetadataValue::Array(vec![value]);
    }
    value
}

#[test]
fn metadata_within_budgets_is_accepted() {
    let doc = MetadataValue::Object(vec![
        (4, MetadataValue::Text(65_536)),
        (256, MetadataValue::Array(scalars(2048))),
        (1, nested_arrays(30)),
    ]);
    assert_eq!(validate_metadata_value(&doc), Ok(()));
    assert_eq!(validate_metadata_value(&nested_arrays(32)), Ok(()));
}

#[test]
fn each_metadata_budget_has_its_own_error() {
    assert_eq!(validate_metadata_value(&nested_arrays(33)), Err(MetadataLimit::TooDeep));
    assert_eq!(validate_metadata_value(&MetadataValue::Text(65_537)), Err(MetadataLimit::StringTooLarge));
    assert_eq!(
        validate_metadata_value(&MetadataValue::Array(scalars(2049))),
        Err(MetadataLimit::ArrayTooLarge)
    );
    let fields: Vec<(usize, MetadataValue)> = (0..513).map(|_| (1, MetadataValue::Scalar)).collect();
    assert_eq!(validate_metadata_value(&MetadataValue::Object(fields)), Err(MetadataLimit::TooManyFields));
    assert_eq!(
        validate_metadata_value(&MetadataValue::Object(vec![(257, MetadataValue::Scalar)])),
        Err(MetadataLimit::KeyTooLarge)
    );
    let wide: Vec<(usize, MetadataValue)> =
        (0..25).map(|_| (1, MetadataValue::Array(scalars(2000)))).collect();
    assert_eq!(validate_metadata_value(&MetadataValue::Object(wide)), Err(MetadataLimit::TooManyValues));
    assert_eq!(
        MetadataLimit::TooDeep.message(),
        "response_too_large: CurseForge metadata nesting is too deep"
    );
}

#[test]
fn the_first_broken_metadata_budget_in_document_order_is_reported() {
    let doc = MetadataValue::Array(vec![MetadataValue::Text(70_000), MetadataValue::Array(scalars(3000))]);
    assert_eq!(validate_metadata_value(&doc), Err(MetadataLimit::StringTooLarge));
    let doc = MetadataValue::Object(vec![(300, MetadataValue::Text(70_000))]);
    assert_eq!(validate_metadata_value(&doc), Err(MetadataLimit::KeyTooLarge));
}

#[test]
fn metadata_headers_are_bounded_in_count_and_bytes() {
    let small = HeaderSize { name_bytes: 12, value_bytes: 100 };
    assert_eq!(validate_metadata_headers(&vec![small; 128]), Ok(()));
    assert_eq!(validate_metadata_headers(&vec![small; 129]), Err(MetadataLimit::TooManyHeaders));
    assert_eq!(
        validate_metadata_headers(&[HeaderSize { name_bytes: 4, value_bytes: 16 * 1024 + 1 }]),
        Err(MetadataLimit::HeadersTooLarge)
    );
    let big = HeaderSize { name_bytes: 0, value_bytes: 16 * 1024 };
    assert_eq!(validate_metadata_headers(&[big, big, big, big]), Ok(()));
    assert_eq!(
        validate_metadata_headers(&[big, big, big, big, HeaderSize { name_bytes: 1, value_bytes: 0 }]),
        Err(MetadataLimit::HeadersTooLarge)
    );
    assert_eq!(
        validate_metadata_headers(&[HeaderSize { name_bytes: usize::MAX, value_bytes: 1 }]),
        Err(MetadataLimit::HeadersTooLarge)
    );
}

fn jar(id: &str, version: &str, hash: &str) -> InstalledServerMod {
    InstalledServerMod {
        file_name: format!("{id}.jar"),
        path: format!("/mods/{id}.jar"),
        mod_id: id.to_string(),
        version: version.to_string(),
        artifact_hash: hash.to_string(),
        environment: ModEnvironment::Server,
        component_kind: ModComponentKind::UserServerMod,
    }
}

fn package(side: ArtifactSide, source: PackageSource) -> CanonicalPackage {
    CanonicalPackage {
        artifact_id: "lithium".to_string(),
        version: "0.15.0".to_string(),
        artifact_hash: "h1".to_string(),
        side,
        source,
    }
}

fn provider(provider: ProviderName, manual_required: bool) -> PackageSource {
    PackageSource::Provider {
        provider,
        project_id: "P".to_string(),
        version_id: "V".to_string(),
        file_name: "lithium.jar".to_string(),
        manual_required,
    }
}

#[test]
fn each_canonical_package_is_skipped_kept_downloaded_or_refused() {
    let none: Vec<InstalledServerMod> = Vec::new();
    assert_eq!(
        acquisition_step(&package(ArtifactSide::Client, PackageSource::Local), &none).unwrap(),
        AcquisitionStep::NotForServer
    );
    let exact = vec![jar("other", "1", "x"), jar("lithium", "0.15.0", "h1")];
    assert_eq!(
        acquisition_step(&package(ArtifactSide::Server, PackageSource::Local), &exact).unwrap(),
        AcquisitionStep::Installed
    );
    assert_eq!(
        acquisition_step(&package(ArtifactSide::Both, provider(ProviderName::CurseForge, false)), &none).unwrap(),
        AcquisitionStep::Download(ProviderName::CurseForge)
    );
    let older = vec![jar("lithium", "0.14.0", "h0")];
    let conflict = acquisition_step(&package(ArtifactSide::Server, provider(ProviderName::Modrinth, false)), &older);
    assert_eq!(
        conflict.unwrap_err().message(),
        "installed mod lithium is version 0.14.0 but this world requires exact version 0.15.0 with artifact hash h1; remove the incompatible local JAR before retrying runtime preparation"
    );
    let local = acquisition_step(&package(ArtifactSide::Server, PackageSource::Local), &none).unwrap_err();
    assert!(matches!(local, AcquisitionError::LocalArtifactMissing { .. }));
    let manual = acquisition_step(&package(ArtifactSide::Server, provider(ProviderName::CurseForge, true)), &none);
    assert_eq!(
        manual.unwrap_err().message(),
        "automatic download is not permitted for exact CurseForge artifact P/V (lithium.jar); obtain that exact provider file and add it through the world Mods flow"
    );
}

#[test]
fn a_download_must_have_the_canonical_size() {
    let name = "lithium.jar".to_string();
    assert!(check_artifact_size(&name, None, 10).is_ok());
    assert!(check_artifact_size(&name, Some(10), 10).is_ok());
    assert_eq!(
        check_artifact_size(&name, Some(10), 11).unwrap_err().message(),
        "provider artifact size mismatch for lithium.jar: canonical source requires 10 bytes, downloaded 11"
    );
}
