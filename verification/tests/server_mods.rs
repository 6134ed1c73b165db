use swarm_cli::inflate::inflate_raw;
use swarm_cli::server_mods::{
    canonical_file_name, compare_runtime_profile, component_kind, evaluate_inventory, fabric_metadata_from_fields,
    inspect_fabric_mod, is_managed_component, parse_fabric_metadata, validate_mod_id, ArtifactRequirement,
    ArtifactSide, InstalledServerMod, JarError, MetadataError, ModComponentKind, ModEnvironment, ModIssueKind,
    RuntimeCompatibilityManifest, requirement_from_jar, requirements_from_jars, RequirementErrorKind,
    check_local_mod, evaluate_mod_inventory, local_mod_removals, mods_dir, staged_user_mods, LocalModError, ModIssue,
};
use swarm_cli::zip_archive::crc32;

fn hex_bytes(value: &str) -> Vec<u8> {
    value
        .as_bytes()
        .chunks_exact(2)
        .map(|pair| {
            let high = (pair[0] as char).to_digit(16).unwrap();
            let low = (pair[1] as char).to_digit(16).unwrap();
            ((high << 4) | low) as u8
        })
        .collect()
}

fn hash_hex(byte: u8) -> String {
    format!("{byte:02x}").repeat(32)
}

fn requirement(id: &str, version: &str, hash_byte: u8) -> ArtifactRequirement {
    ArtifactRequirement {
        artifact_id: id.into(),
        version: version.into(),
        artifact_hash: hash_hex(hash_byte),
        side: ArtifactSide::Server,
    }
}

fn manifest(required_server_mods: Vec<ArtifactRequirement>) -> RuntimeCompatibilityManifest {
    RuntimeCompatibilityManifest { required_server_mods }
}

fn installed(id: &str, version: &str, hash_byte: u8) -> InstalledServerMod {
    InstalledServerMod {
        file_name: format!("{id}.jar"),
        path: format!("/mods/{id}.jar"),
        mod_id: id.into(),
        version: version.into(),
        artifact_hash: hash_hex(hash_byte),
        environment: ModEnvironment::Server,
        component_kind: component_kind(id),
    }
}

fn stored_jar(name: &str, contents: &[u8]) -> Vec<u8> {
    let name = name.as_bytes();
    let crc = crc32(contents);
    let mut out = Vec::new();
    out.extend_from_slice(&0x0403_4b50u32.to_le_bytes());
    out.extend_from_slice(&20u16.to_le_bytes());
    out.extend_from_slice(&0u16.to_le_bytes());
    out.extend_from_slice(&0u16.to_le_bytes());
    out.extend_from_slice(&0u16.to_le_bytes());
    out.extend_from_slice(&0u16.to_le_bytes());
    out.extend_from_slice(&crc.to_le_bytes());
    out.extend_from_slice(&(contents.len() as u32).to_le_bytes());
    out.extend_from_slice(&(contents.len() as u32).to_le_bytes());
    out.extend_from_slice(&(name.len() as u16).to_le_bytes());
    out.extend_from_slice(&0u16.to_le_bytes());
    out.extend_from_slice(name);
    out.extend_from_slice(contents);

    let central_offset = out.len() as u32;
    out.extend_from_slice(&0x0201_4b50u32.to_le_bytes());
    out.extend_from_slice(&20u16.to_le_bytes());
    out.extend_from_slice(&20u16.to_le_bytes());
    out.extend_from_slice(&0u16.to_le_bytes());
    out.extend_from_slice(&0u16.to_le_bytes());
    out.extend_from_slice(&0u16.to_le_bytes());
    out.extend_from_slice(&0u16.to_le_bytes());
    out.extend_from_slice(&crc.to_le_bytes());
    out.extend_from_slice(&(contents.len() as u32).to_le_bytes());
    out.extend_from_slice(&(contents.len() as u32).to_le_bytes());
    out.extend_from_slice(&(name.len() as u16).to_le_bytes());
    out.extend_from_slice(&0u16.to_le_bytes());
    out.extend_from_slice(&0u16.to_le_bytes());
    out.extend_from_slice(&0u16.to_le_bytes());
    out.extend_from_slice(&0u16.to_le_bytes());
    out.extend_from_slice(&0u32.to_le_bytes());
    out.extend_from_slice(&0u32.to_le_bytes());
    out.extend_from_slice(name);
    let central_size = out.len() as u32 - central_offset;

    out.extend_from_slice(&0x0605_4b50u32.to_le_bytes());
    out.extend_from_slice(&0u16.to_le_bytes());
    out.extend_from_slice(&0u16.to_le_bytes());
    out.extend_from_slice(&1u16.to_le_bytes());
    out.extend_from_slice(&1u16.to_le_bytes());
    out.extend_from_slice(&central_size.to_le_bytes());
    out.extend_from_slice(&central_offset.to_le_bytes());
    out.extend_from_slice(&0u16.to_le_bytes());
    out
}

#[test]
fn parses_deflated_fabric_metadata() {
    let compressed = hex_bytes("ab562a4ece48cd4d0c4b2d2acecccf53b232d451ca4c51b252cac92cc9c82ccd55d2512a83492919e8199aea190085f2127353817c1fb89ad4bcb2cca2fcbcdcd4bc12a078716a115093522d00");
    let bytes = inflate_raw(&compressed, 93, 1024).unwrap();
    let parsed = parse_fabric_metadata(&bytes).unwrap();
    assert_eq!(parsed.mod_id, "lithium");
    assert_eq!(parsed.version, "0.15.0");
    assert_eq!(parsed.environment, ModEnvironment::Server);
}

#[test]
fn valid_fabric_mod_jar_is_identified_and_hashed() {
    let metadata = br#"{"schemaVersion":1,"id":"lithium","version":"0.15.0","environment":"server"}"#;
    let jar = stored_jar("fabric.mod.json", metadata);
    let hash = hash_hex(0xab);
    let inspected = inspect_fabric_mod("lithium.jar".into(), "/mods/lithium.jar".into(), &jar, hash.clone()).unwrap();
    assert_eq!(inspected.mod_id, "lithium");
    assert_eq!(inspected.version, "0.15.0");
    assert_eq!(inspected.environment, ModEnvironment::Server);
    assert_eq!(inspected.component_kind, ModComponentKind::UserServerMod);
    assert_eq!(inspected.artifact_hash.len(), 64);
    assert_eq!(inspected.artifact_hash, hash);
    assert_eq!(inspected.file_name, "lithium.jar");
}

#[test]
fn jar_without_metadata_or_with_bad_metadata_is_refused() {
    let jar = stored_jar("other.json", b"{}");
    assert!(matches!(inspect_fabric_mod("a.jar".into(), "/a.jar".into(), &jar, hash_hex(1)), Err(JarError::Archive(_))));
    let jar = stored_jar("fabric.mod.json", br#"{"schemaVersion":2,"id":"ab","version":"1"}"#);
    match inspect_fabric_mod("a.jar".into(), "/a.jar".into(), &jar, hash_hex(1)) {
        Err(JarError::Metadata(MetadataError::UnsupportedSchema { schema })) => assert_eq!(schema, 2),
        _ => panic!("schema version 2 must be refused"),
    }
    let jar = stored_jar("fabric.mod.json", b"not json");
    assert!(matches!(
        inspect_fabric_mod("a.jar".into(), "/a.jar".into(), &jar, hash_hex(1)),
        Err(JarError::Metadata(MetadataError::NotJson))
    ));
}

#[test]
fn duplicate_mod_id_and_conflicting_versions_are_reported() {
    let profile = manifest(vec![requirement("lithium", "1", 1)]);
    let values = vec![installed("lithium", "1", 1), installed("lithium", "2", 2)];
    let issues = compare_runtime_profile(&profile, &values);
    assert!(issues.iter().any(|issue| issue.kind == ModIssueKind::DuplicateModId));
    assert!(issues.iter().any(|issue| issue.kind == ModIssueKind::ConflictingVersion));
}

#[test]
fn single_wrong_version_is_reported() {
    let profile = manifest(vec![requirement("lithium", "1", 1)]);
    let issues = compare_runtime_profile(&profile, &[installed("lithium", "2", 2)]);
    assert!(issues.iter().any(|issue| issue.kind == ModIssueKind::VersionMismatch));
}

#[test]
fn hash_mismatch_is_reported() {
    let profile = manifest(vec![requirement("lithium", "1", 1)]);
    let issues = compare_runtime_profile(&profile, &[installed("lithium", "1", 2)]);
    assert!(issues.iter().any(|issue| issue.kind == ModIssueKind::HashMismatch));
}

#[test]
fn missing_required_mod_blocks_peer_runtime_compatibility() {
    let profile = manifest(vec![requirement("lithium", "1", 1), requirement("ferritecore", "1", 2)]);
    let bob = vec![installed("lithium", "1", 1)];
    let issues = compare_runtime_profile(&profile, &bob);
    assert!(issues
        .iter()
        .any(|issue| { issue.kind == ModIssueKind::MissingRequired && issue.mod_id.as_deref() == Some("ferritecore") }));
}

#[test]
fn exact_peer_inventory_is_compatible() {
    let profile = manifest(vec![requirement("lithium", "1", 1), requirement("ferritecore", "1", 2)]);
    let bob = vec![installed("lithium", "1", 1), installed("ferritecore", "1", 2)];
    assert!(compare_runtime_profile(&profile, &bob).is_empty());
}

#[test]
fn server_only_and_unknown_environments_are_classified() {
    let server =
        parse_fabric_metadata(br#"{"schemaVersion":1,"id":"servermod","version":"1","environment":"server"}"#).unwrap();
    let unknown =
        parse_fabric_metadata(br#"{"schemaVersion":1,"id":"oddmod","version":"1","environment":"dedicated_server"}"#)
            .unwrap();
    let universal = parse_fabric_metadata(br#"{"schemaVersion":1,"id":"bothmod","version":"1"}"#).unwrap();
    assert_eq!(server.environment, ModEnvironment::Server);
    assert_eq!(unknown.environment, ModEnvironment::Unknown);
    assert_eq!(universal.environment, ModEnvironment::Universal);
}

#[test]
fn managed_runtime_components_do_not_require_user_mod_files() {
    let profile = manifest(vec![requirement("fabric-api", "1", 1), requirement("swarmcraft", "1", 2)]);
    assert!(compare_runtime_profile(&profile, &[]).is_empty());
}

#[test]
fn inventory_issues_come_in_their_documented_order_with_messages() {
    let profile = manifest(vec![
        requirement("zeta", "2", 9),
        requirement("swarmcraft.legacy-compatibility", "1", 3),
        requirement("alpha", "1", 1),
    ]);
    let mut client = installed("clientmod", "1", 5);
    client.environment = ModEnvironment::Client;
    let values = vec![installed("zeta", "1", 8), client];
    let (required, issues) = evaluate_inventory(&profile, &values);
    let ids: Vec<&str> = required.iter().map(|r| r.mod_id.as_str()).collect();
    assert_eq!(ids, vec!["alpha", "zeta"]);
    let kinds: Vec<ModIssueKind> = issues.iter().map(|issue| issue.kind).collect();
    assert_eq!(
        kinds,
        vec![
            ModIssueKind::ClientOnly,
            ModIssueKind::MissingRequired,
            ModIssueKind::VersionMismatch,
            ModIssueKind::UnexpectedMod
        ]
    );
    assert_eq!(issues[0].message, "clientmod is client-only and cannot be loaded by the server profile");
    assert_eq!(issues[1].message, "required server mod alpha 1 is missing");
    assert_eq!(issues[2].message, "zeta is installed at a different version; world requires 2");
    assert_eq!(
        issues[3].message,
        "clientmod is not part of this world's canonical server-mod profile and will not be launched"
    );
    assert_eq!(issues[3].file_name.as_deref(), Some("clientmod.jar"));
}

#[test]
fn duplicate_issues_follow_the_sorted_mod_ids() {
    let profile = manifest(vec![]);
    let values = vec![installed("b", "1", 1), installed("a", "1", 1), installed("b", "1", 2), installed("a", "2", 1)];
    let issues = compare_runtime_profile(&profile, &values);
    let summary: Vec<(ModIssueKind, Option<&str>)> =
        issues.iter().map(|issue| (issue.kind, issue.mod_id.as_deref())).collect();
    assert_eq!(
        summary[..3],
        [
            (ModIssueKind::DuplicateModId, Some("a")),
            (ModIssueKind::ConflictingVersion, Some("a")),
            (ModIssueKind::DuplicateModId, Some("b")),
        ]
    );
    assert_eq!(issues[0].message, "multiple JARs claim Fabric mod id a");
    assert_eq!(issues[1].message, "multiple versions of a are installed");
}

#[test]
fn mod_ids_and_file_names_follow_their_rules() {
    assert!(validate_mod_id("lithium"));
    assert!(validate_mod_id("a_b-9"));
    assert!(!validate_mod_id("a"));
    assert!(!validate_mod_id("Lithium"));
    assert!(!validate_mod_id(&"a".repeat(65)));
    assert!(validate_mod_id(&"a".repeat(64)));
    assert!(is_managed_component("fabric-api"));
    assert!(is_managed_component("swarmcraft"));
    assert!(!is_managed_component("lithium"));
    assert_eq!(component_kind("swarmcraft"), ModComponentKind::ManagedRuntime);
    let hash = "0123456789abcdef".repeat(4);
    assert_eq!(canonical_file_name("lithium", "0.15.0+mc1.21", &hash), "lithium-0.15.0_mc1.21-0123456789ab.jar");
}

#[test]
fn metadata_fields_are_checked_in_order() {
    let err = fabric_metadata_from_fields(None, Some("ab".into()), Some("1".into()), None, None);
    assert!(matches!(err, Err(MetadataError::NoSchemaVersion)));
    let err = fabric_metadata_from_fields(Some(1), Some("A".into()), Some("1".into()), None, None);
    match err {
        Err(e @ MetadataError::InvalidModId { .. }) => assert_eq!(e.message(), "invalid Fabric mod id \"A\""),
        _ => panic!("invalid id must be refused"),
    }
    let err = fabric_metadata_from_fields(Some(1), Some("ab".into()), Some("  ".into()), None, None);
    assert!(matches!(err, Err(MetadataError::EmptyVersion)));
    let ok = fabric_metadata_from_fields(Some(1), Some("ab".into()), Some("1".into()), Some("AB".into()), Some("*".into()))
        .unwrap();
    assert_eq!(ok.environment, ModEnvironment::Universal);
    assert_eq!(ok.name.as_deref(), Some("AB"));
    let client = fabric_metadata_from_fields(Some(1), Some("ab".into()), Some("1".into()), None, Some("client".into()))
        .unwrap();
    assert_eq!(client.environment, ModEnvironment::Client);
}

#[test]
fn selected_jars_become_sorted_requirements() {
    let mut universal = installed("zeta", "2.0", 3);
    universal.environment = ModEnvironment::Universal;
    let jars = vec![universal, installed("alpha", "1.0", 1), installed("mid", "0.5", 2)];
    let requirements = requirements_from_jars(&jars).unwrap();
    let ids: Vec<&str> = requirements.iter().map(|r| r.artifact_id.as_str()).collect();
    assert_eq!(ids, vec!["alpha", "mid", "zeta"]);
    assert_eq!(requirements[2].side, ArtifactSide::Both);
    assert_eq!(requirements[0].side, ArtifactSide::Server);
    assert_eq!(requirements[0].artifact_hash, hash_hex(1));
}

#[test]
fn selected_jars_reject_client_only_managed_and_duplicates() {
    let mut client = installed("shader", "1.0", 4);
    client.environment = ModEnvironment::Client;
    let error = requirement_from_jar(&client).unwrap_err();
    assert_eq!(error.kind, RequirementErrorKind::ClientOnly);
    assert_eq!(error.message(), "Fabric mod shader is client-only and cannot be required as a server mod");

    let error = requirements_from_jars(&[installed("alpha", "1.0", 1), installed("fabric-api", "0.1", 2)]).unwrap_err();
    assert_eq!(error.kind, RequirementErrorKind::ManagedComponent);
    assert_eq!(error.message(), "fabric-api is a SwarmCraft-managed runtime component, not a user server mod");

    let error = requirements_from_jars(&[installed("alpha", "1.0", 1), installed("alpha", "2.0", 2)]).unwrap_err();
    assert_eq!(error.kind, RequirementErrorKind::DuplicateModId);
    assert_eq!(error.mod_id, "alpha");
    assert_eq!(error.message(), "duplicate Fabric mod id alpha in selected server mods");

    assert!(requirements_from_jars(&[]).unwrap().is_empty());
}

#[test]
fn local_mod_must_match_the_canonical_profile() {
    let profile = manifest(vec![requirement("alpha", "1.0", 1), requirement("beta", "2.0", 2)]);
    let name = check_local_mod(&installed("alpha", "1.0", 1), &profile).unwrap();
    assert_eq!(name, format!("alpha-1.0-{}.jar", &hash_hex(1)[..12]));

    let error = check_local_mod(&installed("alpha", "1.1", 1), &profile).unwrap_err();
    assert!(matches!(error, LocalModError::VersionMismatch(..)));
    assert_eq!(error.message(), "alpha version mismatch: world requires 1.0, selected JAR is 1.1");

    let error = check_local_mod(&installed("alpha", "1.0", 9), &profile).unwrap_err();
    assert_eq!(error.message(), "alpha artifact hash does not match the world's canonical requirement");

    let error = check_local_mod(&installed("gamma", "1.0", 1), &profile).unwrap_err();
    assert!(matches!(error, LocalModError::NotInProfile(_)));

    let error = check_local_mod(&installed("swarmcraft", "1.0", 1), &profile).unwrap_err();
    assert_eq!(
        error.message(),
        "swarmcraft is managed by the runtime installer and cannot be added as a user server mod"
    );

    let mut client = installed("alpha", "1.0", 1);
    client.environment = ModEnvironment::Client;
    assert_eq!(check_local_mod(&client, &profile).unwrap_err().message(), "Fabric mod alpha is client-only");
}

#[test]
fn removing_a_mod_refuses_ambiguous_claims() {
    let jars = vec![installed("alpha", "1.0", 1), installed("beta", "1.0", 2)];
    assert_eq!(local_mod_removals(&jars, "alpha"), Some(vec!["/mods/alpha.jar".to_string()]));
    assert_eq!(local_mod_removals(&jars, "gamma"), Some(Vec::new()));
    let twice = vec![installed("alpha", "1.0", 1), installed("alpha", "1.0", 1)];
    assert_eq!(local_mod_removals(&twice, "alpha"), None);
}

#[test]
fn mods_dir_is_below_the_world_profile() {
    let dir = mods_dir(&[0x0f; 32]);
    assert_eq!(dir, vec!["0f".repeat(32), "runtime-profile".to_string(), "mods".to_string()]);
}

#[test]
fn mod_directory_readiness_sorts_and_stages_required_user_mods() {
    let profile = manifest(vec![requirement("beta", "2.0", 2), requirement("alpha", "1.0", 1)]);
    let jars = vec![installed("beta", "2.0", 2), installed("alpha", "1.0", 1)];
    let readiness = evaluate_mod_inventory("w".into(), "/mods".into(), jars, Vec::new(), &profile);
    assert!(readiness.ready);
    assert!(readiness.issues.is_empty());
    assert_eq!(readiness.installed[0].mod_id, "alpha");
    assert_eq!(readiness.required[0].mod_id, "alpha");
    let staged = staged_user_mods(&readiness).unwrap();
    let ids: Vec<&str> = staged.iter().map(|m| m.mod_id.as_str()).collect();
    assert_eq!(ids, vec!["alpha", "beta"]);
    assert_eq!(staged[1].path, "/mods/beta.jar");
}

#[test]
fn mod_directory_issues_are_ordered_and_block_staging() {
    let profile = manifest(vec![requirement("alpha", "1.0", 1)]);
    let invalid = ModIssue {
        kind: ModIssueKind::InvalidJar,
        mod_id: None,
        file_name: Some("broken.jar".into()),
        message: "broken.jar is not a valid Fabric mod JAR".into(),
    };
    let readiness =
        evaluate_mod_inventory("w".into(), "/mods".into(), vec![installed("zeta", "1.0", 5)], vec![invalid], &profile);
    assert!(!readiness.ready);
    let kinds: Vec<ModIssueKind> = readiness.issues.iter().map(|issue| issue.kind).collect();
    assert_eq!(kinds, vec![ModIssueKind::InvalidJar, ModIssueKind::MissingRequired, ModIssueKind::UnexpectedMod]);
    let error = staged_user_mods(&readiness).unwrap_err();
    assert!(error.starts_with("server mod runtime profile is not ready: broken.jar is not a valid Fabric mod JAR; "));
    assert_eq!(error.matches("; ").count(), 2);
}
