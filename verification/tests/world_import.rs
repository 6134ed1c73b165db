use swarm_cli::world_import::{validate_import_identity, validate_server_mod_statement, ImportError, ImportWorldResult};

#[test]
fn invalid_directory_and_unknown_compatibility_are_rejected() {
    assert_eq!(validate_import_identity("Example", "unknown", "0.17.2"), Err(ImportError::MinecraftVersionRequired));
    assert_eq!(validate_import_identity("Example", "1.21.8", " UNKNOWN "), Err(ImportError::LoaderVersionRequired));
    assert_eq!(validate_import_identity("  ", "1.21.8", "0.17.2"), Err(ImportError::NameRequired));
    assert_eq!(validate_import_identity("Example", " 1.21.8 ", "0.17.2"), Ok(()));
}

#[test]
fn import_requires_explicit_server_mod_compatibility_statement() {
    let error = validate_server_mod_statement(0, false).unwrap_err();
    assert!(error.message().contains("server-mod compatibility is unknown"));
    assert_eq!(validate_server_mod_statement(0, true), Ok(()));
    assert_eq!(validate_server_mod_statement(2, false), Ok(()));
    assert_eq!(validate_server_mod_statement(2, true), Err(ImportError::ServerModsContradictory));
    let result = ImportWorldResult {
        world_id: "w".into(),
        display_name: "Example".into(),
        snapshot_number: 1,
        snapshot_hash: "h".into(),
        state_root: "r".into(),
        files: 3,
        compatibility_fingerprint: "f".into(),
    };
    assert_eq!(result.files, 3);
}
