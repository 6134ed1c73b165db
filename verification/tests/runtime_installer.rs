use swarm_cli::runtime_installer::{
    artifact_component, directories_component, eula_component, java_component, lock_compatible, required_java_major,
    runtime_status_of, server_mods_component, swarmcraft_component, LockIdentity,
};
use swarm_cli::runtime_installer::{
    adoptium_arch, adoptium_os, artifact_source_label, emit, resolve_fabric_api, select_fabric_api_version,
    ArtifactSource, ResolveError,
};
use swarm_cli::runtime_installer::{
    eq_hash, heuristic_java_major, parse_hash_output, parse_java_major, plan_for_status, platform_components_ready,
    trusted_https, xml_values, RuntimeComponentKind, RuntimeComponentState, RuntimeComponentStatus, RuntimePhase,
    RuntimeStatus, SourceError,
};
use swarm_cli::runtime_installer::{
    final_install_phase, install_phases, install_step, reuse_managed_java, InstallPlan,
};

#[test]
fn parses_java_versions() {
    assert_eq!(parse_java_major("openjdk version \"25.0.1\" 2026-01-01"), Some(25));
    assert_eq!(parse_java_major("java version \"1.8.0_412\""), Some(8));
    assert_eq!(parse_java_major("openjdk version \"21-ea\""), Some(21));
}

#[test]
fn java_heuristic_covers_current_profiles() {
    assert_eq!(heuristic_java_major("26.1.2"), 25);
    assert_eq!(heuristic_java_major("1.21.1"), 21);
    assert_eq!(heuristic_java_major("1.20.6"), 21);
    assert_eq!(heuristic_java_major("1.20.4"), 17);
    assert_eq!(heuristic_java_major("1.17.1"), 16);
}

#[test]
fn extracts_fabric_api_versions_without_xml_dependency() {
    let xml = "<metadata><versioning><versions><version>0.1+1.20.1</version><version>0.2+1.21.1</version></versions></versioning></metadata>";
    assert_eq!(xml_values(xml, "version"), vec!["0.1+1.20.1", "0.2+1.21.1"]);
}

#[test]
fn rejects_untrusted_or_plain_http_sources() {
    assert!(trusted_https("http://meta.fabricmc.net/file", &["meta.fabricmc.net"]).is_err());
    assert!(trusted_https("https://evil.example/file", &["meta.fabricmc.net"]).is_err());
    assert!(trusted_https("https://meta.fabricmc.net/file", &["meta.fabricmc.net"]).is_ok());
}

#[test]
fn java_version_without_quotes_or_number_is_unknown() {
    assert_eq!(parse_java_major("no version here"), None);
    assert_eq!(parse_java_major("java version \"\""), None);
    assert_eq!(parse_java_major("java version \"99999999999.1\""), None);
    assert_eq!(parse_java_major("version \"+17.0.2\""), Some(17));
}

#[test]
fn java_heuristic_defaults_to_java_8_for_old_or_odd_versions() {
    assert_eq!(heuristic_java_major("1.16.5"), 8);
    assert_eq!(heuristic_java_major("1.18"), 17);
    assert_eq!(heuristic_java_major("1.20.5"), 21);
    assert_eq!(heuristic_java_major("snapshot"), 8);
    assert_eq!(heuristic_java_major("x.1.21"), 21);
}

#[test]
fn xml_values_trim_and_stop_at_unclosed_elements() {
    assert_eq!(xml_values("<v> a </v><v>b", "v"), vec!["a"]);
    assert!(xml_values("", "v").is_empty());
}

#[test]
fn trusted_host_ignores_port_path_and_case() {
    assert_eq!(trusted_https("https://GitHub.com:443/x?y#z", &["github.com"]), Ok(()));
    assert_eq!(trusted_https("ftp://github.com/", &["github.com"]), Err(SourceError::NotHttps));
    assert_eq!(trusted_https("https://github.com.evil/", &["github.com"]), Err(SourceError::UntrustedHost));
    assert_eq!(trusted_https("https://a.example/", &["b.example", "A.EXAMPLE"]), Ok(()));
}

#[test]
fn hash_output_takes_first_full_digest_line() {
    let text = "SHA1 hash of file:\r\nA9 99 3E 36 47 06 81 6A BA 3E 25 71 78 50 C2 6C 9C D0 D8 9D\r\nCertUtil: done\r\n";
    assert_eq!(parse_hash_output(text), Some("A9993E364706816ABA3E25717850C26C9CD0D89D".to_string()));
    assert_eq!(parse_hash_output("nothing useful"), None);
}

#[test]
fn hashes_compare_trimmed_and_case_insensitively() {
    assert!(eq_hash("  ABCDEF\n", "abcdef"));
    assert!(!eq_hash("abcdef", "abcdee"));
}

fn component(kind: RuntimeComponentKind, state: RuntimeComponentState, detail: Option<&str>) -> RuntimeComponentStatus {
    RuntimeComponentStatus {
        kind,
        state,
        version: None,
        path: None,
        managed: true,
        detail: detail.map(|d| d.to_string()),
    }
}

#[test]
fn plan_lists_one_action_per_unready_component() {
    let status = RuntimeStatus {
        world_id: "w".into(),
        minecraft_version: "1.21.1".into(),
        fabric_loader_version: "0.17.2".into(),
        required_java_major: 21,
        ready: false,
        eula_accepted: false,
        launch_configured: false,
        manual_configuration: false,
        components: vec![
            component(RuntimeComponentKind::Java, RuntimeComponentState::Ready, None),
            component(RuntimeComponentKind::MinecraftServer, RuntimeComponentState::Missing, None),
            component(RuntimeComponentKind::Eula, RuntimeComponentState::Required, Some("accept the EULA")),
        ],
    };
    assert!(!platform_components_ready(&status));
    let plan = plan_for_status("w".into(), &status);
    assert!(!plan.ready);
    assert_eq!(plan.actions.len(), 2);
    assert_eq!(plan.actions[0].phase, RuntimePhase::DownloadingServer);
    assert_eq!(plan.actions[0].description, "prepare MinecraftServer");
    assert!(plan.actions[0].requires_network);
    assert_eq!(plan.actions[1].phase, RuntimePhase::WaitingForEula);
    assert_eq!(plan.actions[1].description, "accept the EULA");
    assert!(plan.actions[1].requires_eula_acceptance);
}

#[test]
fn fabric_api_release_is_the_newest_for_the_minecraft_version() {
    let versions: Vec<String> = vec!["0.1+1.21.1".into(), "0.2+1.20.1".into(), "0.3+1.21.1".into(), "0.4+1.21.10".into()];
    assert_eq!(select_fabric_api_version(&versions, "1.21.1").as_deref(), Some("0.3+1.21.1"));
    assert_eq!(select_fabric_api_version(&versions, "1.19"), None);
    let resolved = resolve_fabric_api(&versions, "1.21.1", "  abcdef0123  fabric-api.jar\n").unwrap();
    assert_eq!(resolved.version, "0.3+1.21.1");
    assert_eq!(resolved.sha1.as_deref(), Some("abcdef0123"));
    match &resolved.source {
        ArtifactSource::Download(url) => assert_eq!(
            url,
            "https://maven.fabricmc.net/net/fabricmc/fabric-api/fabric-api/0.3+1.21.1/fabric-api-0.3+1.21.1.jar"
        ),
        ArtifactSource::Local(_) => panic!("Fabric API is downloaded"),
    }
    assert!(matches!(resolve_fabric_api(&versions, "1.21.1", " \n "), Err(ResolveError::EmptyChecksum)));
    assert!(matches!(resolve_fabric_api(&versions, "1.18", "x"), Err(ResolveError::NoMatchingFabricApi)));
}

#[test]
fn platform_names_and_progress_follow_their_tables() {
    assert_eq!(adoptium_os("windows"), "windows");
    assert_eq!(adoptium_os("macos"), "mac");
    assert_eq!(adoptium_os("linux"), "linux");
    assert_eq!(adoptium_os("freebsd"), "linux");
    assert_eq!(adoptium_arch("x86_64").as_deref(), Some("x64"));
    assert_eq!(adoptium_arch("aarch64").as_deref(), Some("aarch64"));
    assert_eq!(adoptium_arch("riscv64"), None);
    assert_eq!(artifact_source_label(&ArtifactSource::Local("/tmp/a.jar".into())), "local:/tmp/a.jar");
    assert_eq!(artifact_source_label(&ArtifactSource::Download("https://x".into())), "https://x");
    let mut progress = Vec::new();
    let mut completed = Vec::new();
    emit(&mut progress, &mut completed, RuntimePhase::Verifying, "checking".into());
    assert_eq!(completed, vec![RuntimePhase::Verifying]);
    assert_eq!(progress.len(), 1);
    assert_eq!(progress[0].message, "checking");
}

#[test]
fn runtime_components_report_their_state() {
    let lock = LockIdentity {
        schema_version: 1,
        world_id: "w".into(),
        minecraft_version: "1.21.1".into(),
        fabric_loader_version: "0.16.5".into(),
    };
    let (w, mc, loader) = ("w".to_string(), "1.21.1".to_string(), "0.16.5".to_string());
    assert!(lock_compatible(Some(&lock), &w, &mc, &loader));
    assert!(!lock_compatible(Some(&lock), &w, &"1.21.2".to_string(), &loader));
    assert!(!lock_compatible(None, &w, &mc, &loader));
    assert_eq!(required_java_major(Some(17), "1.21.1"), 17);
    assert_eq!(required_java_major(None, "1.21.1"), 21);

    let java = java_component(21, Some(21), Some(("/opt/java".into(), true)), None, true);
    assert_eq!(java.state, RuntimeComponentState::Ready);
    assert_eq!(java.version.as_deref(), Some("21"));
    assert!(java.managed && java.detail.is_none());
    let old = java_component(21, Some(17), None, Some("/usr/bin/java".into()), false);
    assert_eq!(old.state, RuntimeComponentState::Incompatible);
    assert_eq!(old.path.as_deref(), Some("/usr/bin/java"));
    assert_eq!(old.detail.as_deref(), Some("Minecraft requires Java 21"));
    let absent = java_component(21, None, None, None, false);
    assert_eq!(absent.state, RuntimeComponentState::Missing);
    assert_eq!(absent.path.as_deref(), Some("java"));

    let missing = artifact_component(RuntimeComponentKind::FabricApi, None, true, true, true);
    assert_eq!(missing.state, RuntimeComponentState::Missing);
    let foreign = artifact_component(RuntimeComponentKind::FabricApi, Some(("1".into(), "/a".into())), false, true, true);
    assert_eq!(foreign.state, RuntimeComponentState::Incompatible);
    let corrupt = artifact_component(RuntimeComponentKind::FabricApi, Some(("1".into(), "/a".into())), true, true, false);
    assert_eq!(corrupt.state, RuntimeComponentState::Corrupt);
    assert_eq!(corrupt.detail.as_deref(), Some("artifact is missing or its recorded SHA-256 no longer matches"));
    let ready = artifact_component(RuntimeComponentKind::SwarmcraftFabric, Some(("1".into(), "/a".into())), true, true, true);
    assert_eq!(ready.state, RuntimeComponentState::Ready);
    let other = swarmcraft_component("0.5.0".into(), "0.4.0", artifact_component(RuntimeComponentKind::SwarmcraftFabric, None, true, true, true));
    assert_eq!(other.state, RuntimeComponentState::Incompatible);
    assert_eq!(other.detail.as_deref(), Some("world requires adapter 0.5.0, application provides 0.4.0"));
    let same = swarmcraft_component("0.4.0".into(), "0.4.0", artifact_component(RuntimeComponentKind::SwarmcraftFabric, None, true, true, true));
    assert_eq!(same.state, RuntimeComponentState::Missing);

    assert_eq!(eula_component(false).state, RuntimeComponentState::Required);
    assert_eq!(directories_component(false, "/w".into()).state, RuntimeComponentState::Missing);
    let unsynced = server_mods_component(None, "/mods".into());
    assert_eq!(unsynced.state, RuntimeComponentState::Unavailable);
    let only_managed = vec![("fabric-api".to_string(), "1".to_string()), ("swarmcraft.legacy-compatibility".to_string(), "1".to_string())];
    assert_eq!(server_mods_component(Some(&only_managed), "/mods".into()).state, RuntimeComponentState::Ready);
    let user = vec![("lithium".to_string(), "0.13".to_string()), ("fabric-api".to_string(), "1".to_string()), ("carpet".to_string(), "1.4".to_string())];
    let needs = server_mods_component(Some(&user), "/mods".into());
    assert_eq!(needs.state, RuntimeComponentState::Unavailable);
    assert_eq!(
        needs.detail.as_deref(),
        Some("required user server mods need the server-mod manager and are not auto-downloaded: lithium 0.13, carpet 1.4")
    );

    let status = runtime_status_of("w".into(), mc.clone(), loader.clone(), 21, vec![ready, eula_component(true)], true, true, false);
    assert!(status.ready && status.manual_configuration);
    let blocked = runtime_status_of("w".into(), mc, loader, 21, vec![eula_component(false)], false, false, true);
    assert!(!blocked.ready && !blocked.manual_configuration);
}

fn install_status(server: RuntimeComponentState, eula_accepted: bool) -> RuntimeStatus {
    RuntimeStatus {
        world_id: "w".into(),
        minecraft_version: "1.21.1".into(),
        fabric_loader_version: "0.17.2".into(),
        required_java_major: 21,
        ready: false,
        eula_accepted,
        launch_configured: false,
        manual_configuration: false,
        components: vec![
            component(RuntimeComponentKind::Java, RuntimeComponentState::Ready, None),
            component(RuntimeComponentKind::MinecraftServer, server, None),
            component(RuntimeComponentKind::Eula, RuntimeComponentState::Required, None),
        ],
    }
}

#[test]
fn a_prepared_runtime_is_only_verified_unless_forced() {
    let ready = install_status(RuntimeComponentState::Ready, false);
    assert_eq!(install_step(false, true, &ready, Some(21), 21), InstallPlan::Prepared { save_launch_config: true });
    assert_eq!(install_step(false, false, &ready, Some(21), 21), InstallPlan::Prepared { save_launch_config: false });
    let accepted = install_status(RuntimeComponentState::Ready, true);
    assert_eq!(install_step(false, true, &accepted, None, 21), InstallPlan::Prepared { save_launch_config: false });
    assert_eq!(
        install_step(true, true, &ready, Some(21), 21),
        InstallPlan::Install { managed_java: false, save_launch_config: true }
    );
}

#[test]
fn a_missing_runtime_is_installed_with_managed_java_unless_the_system_java_fits() {
    let missing = install_status(RuntimeComponentState::Missing, false);
    assert_eq!(
        install_step(false, false, &missing, Some(21), 21),
        InstallPlan::Install { managed_java: false, save_launch_config: false }
    );
    assert_eq!(
        install_step(false, true, &missing, Some(17), 21),
        InstallPlan::Install { managed_java: true, save_launch_config: true }
    );
    assert_eq!(
        install_step(false, true, &missing, None, 21),
        InstallPlan::Install { managed_java: true, save_launch_config: true }
    );
}

#[test]
fn install_phases_follow_the_plan() {
    assert_eq!(
        install_phases(InstallPlan::Prepared { save_launch_config: true }),
        vec![RuntimePhase::Checking, RuntimePhase::Verifying]
    );
    assert_eq!(
        install_phases(InstallPlan::Install { managed_java: true, save_launch_config: false }),
        vec![
            RuntimePhase::Checking,
            RuntimePhase::PreparingDirectories,
            RuntimePhase::DownloadingJava,
            RuntimePhase::DownloadingServer,
            RuntimePhase::InstallingFabric,
            RuntimePhase::InstallingFabricApi,
            RuntimePhase::InstallingSwarmcraftMod,
            RuntimePhase::WaitingForEula,
            RuntimePhase::Verifying,
        ]
    );
    assert_eq!(
        install_phases(InstallPlan::Install { managed_java: false, save_launch_config: true }).len(),
        7
    );
    let prepared = InstallPlan::Prepared { save_launch_config: false };
    let install = InstallPlan::Install { managed_java: false, save_launch_config: false };
    assert_eq!(final_install_phase(prepared, true, false), Some(RuntimePhase::Ready));
    assert_eq!(final_install_phase(prepared, false, false), Some(RuntimePhase::WaitingForEula));
    assert_eq!(final_install_phase(prepared, false, true), None);
    assert_eq!(final_install_phase(install, false, false), None);
    assert_eq!(final_install_phase(install, true, false), Some(RuntimePhase::Ready));
}

#[test]
fn managed_java_is_reused_only_when_present_unforced_and_of_the_required_version() {
    assert!(reuse_managed_java(true, false, Some(21), 21));
    assert!(!reuse_managed_java(false, false, Some(21), 21));
    assert!(!reuse_managed_java(true, true, Some(21), 21));
    assert!(!reuse_managed_java(true, false, Some(17), 21));
    assert!(!reuse_managed_java(true, false, None, 21));
}
