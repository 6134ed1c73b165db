//! The provider-neutral model of mod packages: projects, versions, artifacts,
//! dependency graphs and the structured failures that a provider reports.
use vstd::prelude::*;

verus! {

#[derive(Debug, Clone, Copy, PartialEq, Eq, Structural)]
pub enum ProviderId {
    Modrinth,
}

#[derive(Debug, Clone, Copy, PartialEq, Eq, Structural)]
pub enum PackageEnvironment {
    Client,
    Server,
}

#[derive(Debug, Clone, Copy, PartialEq, Eq, Structural)]
pub enum ModEnvironment {
    ClientAndServer,
    ClientOnly,
    ClientOnlyServerOptional,
    SingleplayerOnly,
    ServerOnly,
    ServerOnlyClientOptional,
    DedicatedServerOnly,
    ClientOrServer,
    ClientOrServerPrefersBoth,
    Unknown,
}

/// Whether a mod declared for `declared` can be installed in `environment`.
pub open spec fn supports_spec(declared: ModEnvironment, environment: PackageEnvironment) -> bool {
    match environment {
        PackageEnvironment::Server => match declared {
            ModEnvironment::ClientAndServer
            | ModEnvironment::ServerOnly
            | ModEnvironment::ServerOnlyClientOptional
            | ModEnvironment::DedicatedServerOnly
            | ModEnvironment::ClientOrServer
            | ModEnvironment::ClientOrServerPrefersBoth => true,
            _ => false,
        },
        PackageEnvironment::Client => match declared {
            ModEnvironment::ClientAndServer
            | ModEnvironment::ClientOnly
            | ModEnvironment::ClientOnlyServerOptional
            | ModEnvironment::ServerOnlyClientOptional
            | ModEnvironment::ClientOrServer
            | ModEnvironment::ClientOrServerPrefersBoth => true,
            _ => false,
        },
    }
}

impl ModEnvironment {
    pub fn supports(self, environment: PackageEnvironment) -> (r: bool)
        ensures
            r == supports_spec(self, environment),
    {
        match environment {
            PackageEnvironment::Server => match self {
                ModEnvironment::ClientAndServer
                | ModEnvironment::ServerOnly
                | ModEnvironment::ServerOnlyClientOptional
                | ModEnvironment::DedicatedServerOnly
                | ModEnvironment::ClientOrServer
                | ModEnvironment::ClientOrServerPrefersBoth => true,
                _ => false,
            },
            PackageEnvironment::Client => match self {
                ModEnvironment::ClientAndServer
                | ModEnvironment::ClientOnly
                | ModEnvironment::ClientOnlyServerOptional
                | ModEnvironment::ServerOnlyClientOptional
                | ModEnvironment::ClientOrServer
                | ModEnvironment::ClientOrServerPrefersBoth => true,
                _ => false,
            },
        }
    }
}

/// A mod that must run on both sides runs on each of them, a mod of unknown
/// placement runs on neither, and no mod runs only in single-player and on a
/// server.
pub proof fn lemma_supports_extremes(environment: PackageEnvironment)
    ensures
        supports_spec(ModEnvironment::ClientAndServer, environment),
        !supports_spec(ModEnvironment::Unknown, environment),
        !supports_spec(ModEnvironment::SingleplayerOnly, environment),
{
}

#[derive(Debug, Clone, Copy, PartialEq, Eq, Structural)]
pub enum ReleaseType {
    Release,
    Beta,
    Alpha,
}

#[derive(Debug, Clone)]
pub struct ModSearchQuery {
    pub query: String,
    pub minecraft_version: String,
    pub loader: String,
    pub environment: PackageEnvironment,
    pub release_type: Option<ReleaseType>,
    pub offset: u32,
    pub limit: u32,
}

#[derive(Debug, Clone)]
pub struct ModProjectSummary {
    pub provider: ProviderId,
    pub project_id: String,
    pub slug: String,
    pub title: String,
    pub description: String,
    pub icon_url: Option<String>,
    pub categories: Vec<String>,
}

#[derive(Debug, Clone)]
pub struct ModLicense {
    pub id: String,
    pub name: String,
    pub url: Option<String>,
}

#[derive(Debug, Clone)]
pub struct ModProjectDetails {
    pub summary: ModProjectSummary,
    pub status: String,
    pub project_type: String,
    pub environments: Vec<ModEnvironment>,
    pub minecraft_versions: Vec<String>,
    pub loaders: Vec<String>,
    pub license: ModLicense,
}

#[derive(Debug, Clone, Copy, PartialEq, Eq, Structural)]
pub enum DependencyKind {
    Required,
    Optional,
    Incompatible,
    Embedded,
}

#[derive(Debug, Clone)]
pub struct ModDependency {
    pub kind: DependencyKind,
    pub project_id: Option<String>,
    pub version_id: Option<String>,
    pub file_name: Option<String>,
}

#[derive(Debug, Clone)]
pub struct ArtifactHashes {
    pub sha1: Option<String>,
    pub sha512: Option<String>,
    pub sha256: Option<String>,
}

impl Default for ArtifactHashes {
    fn default() -> (r: Self)
        ensures
            r.sha1 is None,
            r.sha512 is None,
            r.sha256 is None,
    {
        ArtifactHashes { sha1: None, sha512: None, sha256: None }
    }
}

#[derive(Debug, Clone)]
pub struct ModArtifactLocator {
    pub provider: ProviderId,
    pub project_id: String,
    pub version_id: String,
    pub sha1: Option<String>,
    pub sha512: Option<String>,
}

#[derive(Debug, Clone)]
pub enum ArtifactRetrieval {
    ProviderDownload,
    ManualRequired { reason: String },
}

#[derive(Debug, Clone)]
pub struct ModArtifact {
    pub filename: String,
    pub url: Option<String>,
    pub locator: ModArtifactLocator,
    pub primary: bool,
    pub size: u64,
    pub hashes: ArtifactHashes,
    pub file_type: Option<String>,
    pub retrieval: ArtifactRetrieval,
}

#[derive(Debug, Clone)]
pub struct ModVersion {
    pub provider: ProviderId,
    pub project_id: String,
    pub version_id: String,
    pub display_name: String,
    pub version_number: String,
    pub minecraft_versions: Vec<String>,
    pub loaders: Vec<String>,
    pub environment: ModEnvironment,
    pub release_type: ReleaseType,
    pub published_at: String,
    pub dependencies: Vec<ModDependency>,
    pub files: Vec<ModArtifact>,
}

#[derive(Debug, Clone)]
pub struct ModVersionFilter {
    pub minecraft_version: String,
    pub loader: String,
    pub environment: PackageEnvironment,
    pub release_type: Option<ReleaseType>,
}

#[derive(Debug, Clone, Copy, PartialEq, Eq, Structural)]
pub struct RateLimitSnapshot {
    pub limit: Option<u64>,
    pub remaining: Option<u64>,
    pub reset_seconds: Option<u64>,
}

#[derive(Debug, Clone)]
pub struct ModSearchResult {
    pub items: Vec<ModProjectSummary>,
    pub offset: u32,
    pub limit: u32,
    pub total_hits: u64,
    pub rate_limit: Option<RateLimitSnapshot>,
}

#[derive(Debug, Clone)]
pub struct ModVersionList {
    pub items: Vec<ModVersion>,
    pub rate_limit: Option<RateLimitSnapshot>,
}

#[derive(Debug, Clone)]
pub struct ModResolveRequest {
    pub root_version_id: String,
    pub minecraft_version: String,
    pub loader: String,
    pub environment: PackageEnvironment,
    pub allowed_release_types: Vec<ReleaseType>,
}

#[derive(Debug, Clone)]
pub struct ResolvedModGraph {
    pub provider: ProviderId,
    pub root_version_id: String,
    pub versions: Vec<ModVersion>,
    pub optional_dependencies: Vec<ModDependency>,
    pub incompatibilities: Vec<ModDependency>,
}

/// A download request; the destination directory is a filesystem path.
#[derive(Debug, Clone)]
pub struct ModDownloadRequest {
    pub locator: ModArtifactLocator,
    pub destination_dir: String,
    pub max_bytes: Option<u64>,
}

#[derive(Debug, Clone)]
pub struct DownloadedArtifact {
    pub provider: ProviderId,
    pub project_id: String,
    pub version_id: String,
    pub filename: String,
    pub path: String,
    pub size: u64,
    pub source_url: String,
    pub hashes: ArtifactHashes,
}

#[derive(Debug, Clone, Copy, PartialEq, Eq, Structural)]
pub enum ProviderFailureKind {
    InvalidRequest,
    RateLimited,
    Unavailable,
    NotFound,
    MalformedResponse,
    Incompatible,
    DependencyCycle,
    UnresolvedDependency,
    HashMismatch,
    DownloadInterrupted,
    RetrievalRestricted,
    Io,
}

/// A structured provider failure. `details` is a map from key to value held
/// as key/value pairs; a later pair for a key shadows an earlier one, and
/// `with_detail` keeps the keys distinct.
#[derive(Debug, Clone)]
pub struct ProviderFailure {
    pub provider: ProviderId,
    pub kind: ProviderFailureKind,
    pub message: String,
    pub retry_after_seconds: Option<u64>,
    pub remediation: Option<String>,
    pub details: Vec<(String, String)>,
}

/// The map that a sequence of key/value pairs stands for.
pub open spec fn details_map(pairs: Seq<(String, String)>) -> Map<Seq<char>, Seq<char>>
    decreases pairs.len(),
{
    if pairs.len() == 0 {
        Map::empty()
    } else {
        let last = pairs.last();
        details_map(pairs.drop_last()).insert(last.0@, last.1@)
    }
}

/// No key occurs twice.
pub open spec fn keys_distinct(pairs: Seq<(String, String)>) -> bool {
    forall|i: int, j: int| 0 <= i < j < pairs.len() ==> (#[trigger] pairs[i]).0@ != (#[trigger] pairs[j]).0@
}

proof fn lemma_details_replace(pairs: Seq<(String, String)>, i: int, entry: (String, String))
    requires
        0 <= i < pairs.len(),
        pairs[i].0@ == entry.0@,
        forall|j: int| i < j < pairs.len() ==> (#[trigger] pairs[j]).0@ != entry.0@,
    ensures
        details_map(pairs.update(i, entry)) == details_map(pairs).insert(entry.0@, entry.1@),
    decreases pairs.len(),
{
    let updated = pairs.update(i, entry);
    if i == pairs.len() - 1 {
        assert(updated.drop_last() =~= pairs.drop_last());
        assert(details_map(updated) =~= details_map(pairs).insert(entry.0@, entry.1@));
    } else {
        let last = pairs.last();
        assert(last.0@ != entry.0@);
        assert(updated.drop_last() =~= pairs.drop_last().update(i, entry));
        lemma_details_replace(pairs.drop_last(), i, entry);
        assert(details_map(updated) =~= details_map(pairs).insert(entry.0@, entry.1@));
    }
}

impl ProviderFailure {
    /// A failure from the default provider with no retry hint, remediation or
    /// details.
    pub fn new(kind: ProviderFailureKind, message: String) -> (r: Self)
        ensures
            r.provider == ProviderId::Modrinth,
            r.kind == kind,
            r.message@ == message@,
            r.retry_after_seconds is None,
            r.remediation is None,
            r.details@.len() == 0,
    {
        ProviderFailure {
            provider: ProviderId::Modrinth,
            kind,
            message,
            retry_after_seconds: None,
            remediation: None,
            details: Vec::new(),
        }
    }

    pub fn with_retry_after(self, seconds: Option<u64>) -> (r: Self)
        ensures
            r.retry_after_seconds == seconds,
            r.provider == self.provider,
            r.kind == self.kind,
            r.message@ == self.message@,
            r.remediation == self.remediation,
            r.details@ == self.details@,
    {
        let mut failure = self;
        failure.retry_after_seconds = seconds;
        failure
    }

    pub fn with_remediation(self, remediation: String) -> (r: Self)
        ensures
            r.remediation == Some(remediation),
            r.retry_after_seconds == self.retry_after_seconds,
            r.provider == self.provider,
            r.kind == self.kind,
            r.message@ == self.message@,
            r.details@ == self.details@,
    {
        let mut failure = self;
        failure.remediation = Some(remediation);
        failure
    }

    /// Records `key = value`, replacing the value of an existing key.
    pub fn with_detail(self, key: String, value: String) -> (r: Self)
        ensures
            details_map(r.details@) == details_map(self.details@).insert(key@, value@),
            keys_distinct(self.details@) ==> keys_distinct(r.details@),
            r.retry_after_seconds == self.retry_after_seconds,
            r.remediation == self.remediation,
            r.provider == self.provider,
            r.kind == self.kind,
            r.message@ == self.message@,
    {
        let mut failure = self;
        let ghost old_pairs = failure.details@;
        let mut i: usize = failure.details.len();
        while i > 0
            invariant
                i <= failure.details@.len(),
                failure.details@ == old_pairs,
                old_pairs == self.details@,
                failure.retry_after_seconds == self.retry_after_seconds,
                failure.remediation == self.remediation,
                failure.provider == self.provider,
                failure.kind == self.kind,
                failure.message@ == self.message@,
                forall|j: int| i <= j < old_pairs.len() ==> (#[trigger] old_pairs[j]).0@ != key@,
            decreases i,
        {
            if failure.details[i - 1].0 == key {
                let ghost idx = (i - 1) as int;
                proof {
                    lemma_details_replace(old_pairs, idx, (key, value));
                }
                failure.details.set(i - 1, (key, value));
                assert(failure.details@ == old_pairs.update(idx, (key, value)));
                proof {
                    assert forall|a: int, b: int|
                        keys_distinct(old_pairs) && 0 <= a < b < failure.details@.len() implies
                        (#[trigger] failure.details@[a]).0@ != (#[trigger] failure.details@[b]).0@ by {
                        assert(old_pairs[a].0@ != old_pairs[b].0@);
                    }
                }
                return failure;
            }
            i = i - 1;
        }
        failure.details.push((key, value));
        proof {
            assert(failure.details@.drop_last() =~= old_pairs);
        }
        failure
    }
}

} // verus!
