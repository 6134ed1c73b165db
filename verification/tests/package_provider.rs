use swarm_cli::package_provider::{
    ArtifactHashes, ModEnvironment, PackageEnvironment, ProviderFailure, ProviderFailureKind, ProviderId,
};

#[test]
fn environments_support_the_sides_they_name() {
    assert!(ModEnvironment::ClientAndServer.supports(PackageEnvironment::Server));
    assert!(ModEnvironment::ClientAndServer.supports(PackageEnvironment::Client));
    assert!(ModEnvironment::ServerOnlyClientOptional.supports(PackageEnvironment::Client));
    assert!(ModEnvironment::DedicatedServerOnly.supports(PackageEnvironment::Server));
    assert!(!ModEnvironment::DedicatedServerOnly.supports(PackageEnvironment::Client));
    assert!(!ModEnvironment::ClientOnly.supports(PackageEnvironment::Server));
    assert!(!ModEnvironment::ClientOnlyServerOptional.supports(PackageEnvironment::Server));
    assert!(!ModEnvironment::SingleplayerOnly.supports(PackageEnvironment::Client));
    assert!(!ModEnvironment::Unknown.supports(PackageEnvironment::Server));
}

#[test]
fn provider_failures_are_built_up_field_by_field() {
    let failure = ProviderFailure::new(ProviderFailureKind::RateLimited, "slow down".to_string())
        .with_retry_after(Some(30))
        .with_remediation("wait".to_string())
        .with_detail("status".to_string(), "429".to_string())
        .with_detail("host".to_string(), "api".to_string())
        .with_detail("status".to_string(), "503".to_string());
    assert_eq!(failure.provider, ProviderId::Modrinth);
    assert_eq!(failure.kind, ProviderFailureKind::RateLimited);
    assert_eq!(failure.message, "slow down");
    assert_eq!(failure.retry_after_seconds, Some(30));
    assert_eq!(failure.remediation.as_deref(), Some("wait"));
    assert_eq!(
        failure.details,
        vec![("status".to_string(), "503".to_string()), ("host".to_string(), "api".to_string())]
    );
    let plain = ProviderFailure::new(ProviderFailureKind::Io, "disk".to_string());
    assert!(plain.retry_after_seconds.is_none() && plain.remediation.is_none() && plain.details.is_empty());
}

#[test]
fn default_hashes_are_empty() {
    let hashes = ArtifactHashes::default();
    assert!(hashes.sha1.is_none() && hashes.sha256.is_none() && hashes.sha512.is_none());
}
