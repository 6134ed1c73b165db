//! Server mods: identifying a Fabric mod from the bytes of its JAR, and
//! holding the installed inventory of a world against its canonical
//! server-mod profile.
use vstd::prelude::*;
use crate::text::{
    lemma_sort_by_multiset, chars_of, decimal_spec, decimal_string, dedup_adjacent, insert_by, lex_le, lex_le_exec, sort_by,
    sorted_distinct_texts, string_from_chars, text_le, texts_of, trim_spec, lemma_insert_by_shape, lemma_lex_antisymmetric,
    lemma_lex_total, lemma_lex_transitive, lemma_sort_by_sorted, sorted_by, total_preorder, lemma_dedup_contains,
};
use crate::zip_archive::{read_zip_entry, zip_entry_spec, ZipError};

verus! {

/// The largest JAR that is inspected.
pub const MAX_JAR_BYTES: usize = 268435456;

#[derive(Debug, Clone, Copy, PartialEq, Eq, Structural)]
pub enum ModEnvironment {
    Server,
    Universal,
    Client,
    Unknown,
}

#[derive(Debug, Clone, Copy, PartialEq, Eq, Structural)]
pub enum ModComponentKind {
    ManagedRuntime,
    UserServerMod,
}

#[derive(Debug)]
pub struct FabricModMetadata {
    pub mod_id: String,
    pub version: String,
    pub name: Option<String>,
    pub environment: ModEnvironment,
}

#[derive(Debug)]
pub struct InstalledServerMod {
    pub file_name: String,
    pub path: String,
    pub mod_id: String,
    pub version: String,
    pub artifact_hash: String,
    pub environment: ModEnvironment,
    pub component_kind: ModComponentKind,
}

#[derive(Debug, Clone, Copy, PartialEq, Eq, Structural)]
pub enum ModIssueKind {
    InvalidJar,
    DuplicateModId,
    ConflictingVersion,
    MissingRequired,
    HashMismatch,
    VersionMismatch,
    UnexpectedMod,
    ClientOnly,
}

#[derive(Debug)]
pub struct ModIssue {
    pub kind: ModIssueKind,
    pub mod_id: Option<String>,
    pub file_name: Option<String>,
    pub message: String,
}

pub open spec fn managed_spec(mod_id: Seq<char>) -> bool {
    mod_id == "fabric-api"@ || mod_id == "swarmcraft"@
}

/// The mods that the runtime installer manages itself.
pub fn is_managed_component(mod_id: &str) -> (r: bool)
    ensures
        r == managed_spec(mod_id@),
{
    let id = string_from_chars(chars_of(mod_id).as_slice());
    let api = String::from_str("fabric-api");
    let core = String::from_str("swarmcraft");
    id == api || id == core
}

pub open spec fn component_kind_spec(mod_id: Seq<char>) -> ModComponentKind {
    if managed_spec(mod_id) {
        ModComponentKind::ManagedRuntime
    } else {
        ModComponentKind::UserServerMod
    }
}

pub fn component_kind(mod_id: &str) -> (r: ModComponentKind)
    ensures
        r == component_kind_spec(mod_id@),
{
    if is_managed_component(mod_id) {
        ModComponentKind::ManagedRuntime
    } else {
        ModComponentKind::UserServerMod
    }
}

/// A character a Fabric mod id may hold: an ASCII lower-case letter or
/// digit, `_` or `-`.
pub open spec fn mod_id_char(c: char) -> bool {
    ('a' <= c && c <= 'z') || ('0' <= c && c <= '9') || c == '_' || c == '-'
}

/// A valid Fabric mod id: 2 to 64 characters, each a `mod_id_char`.
pub open spec fn valid_mod_id(id: Seq<char>) -> bool {
    2 <= id.len() <= 64 && forall|i: int| 0 <= i < id.len() ==> mod_id_char(#[trigger] id[i])
}

/// Whether `value` is a valid Fabric mod id. Every allowed character is one
/// byte of UTF-8, so the byte-length bound of the id is its length here.
pub fn validate_mod_id(value: &str) -> (r: bool)
    ensures
        r == valid_mod_id(value@),
{
    let chars = chars_of(value);
    if chars.len() < 2 || chars.len() > 64 {
        return false;
    }
    let mut i: usize = 0;
    while i < chars.len()
        invariant
            i <= chars@.len(),
            chars@ == value@,
            forall|k: int| 0 <= k < i ==> mod_id_char(#[trigger] chars@[k]),
        decreases chars@.len() - i,
    {
        let c = chars[i];
        if !(('a' <= c && c <= 'z') || ('0' <= c && c <= '9') || c == '_' || c == '-') {
            return false;
        }
        i = i + 1;
    }
    true
}

/// A version character kept in a file name; others become `_`.
pub open spec fn file_safe_char(c: char) -> char {
    if ('a' <= c && c <= 'z') || ('A' <= c && c <= 'Z') || ('0' <= c && c <= '9') || c == '.' || c == '_' || c
        == '-' {
        c
    } else {
        '_'
    }
}

pub open spec fn canonical_file_name_spec(mod_id: Seq<char>, version: Seq<char>, hash_hex: Seq<char>) -> Seq<char> {
    mod_id + "-"@ + version.map_values(|c: char| file_safe_char(c)) + "-"@ + hash_hex.subrange(0, 12) + ".jar"@
}

/// The file name under which a verified mod is stored:
/// `<id>-<version>-<first 12 hash digits>.jar`, with every version
/// character other than ASCII letters, digits, `.`, `_` and `-` replaced
/// by `_`.
pub fn canonical_file_name(mod_id: &str, version: &str, hash_hex: &str) -> (r: String)
    requires
        hash_hex@.len() >= 12,
    ensures
        r@ == canonical_file_name_spec(mod_id@, version@, hash_hex@),
{
    let version_chars = chars_of(version);
    let mut safe: Vec<char> = Vec::new();
    let mut i: usize = 0;
    while i < version_chars.len()
        invariant
            i <= version_chars@.len(),
            version_chars@ == version@,
            safe@ == version@.subrange(0, i as int).map_values(|c: char| file_safe_char(c)),
        decreases version_chars@.len() - i,
    {
        let c = version_chars[i];
        let kept = if ('a' <= c && c <= 'z') || ('A' <= c && c <= 'Z') || ('0' <= c && c <= '9') || c == '.' || c
            == '_' || c == '-' {
            c
        } else {
            '_'
        };
        safe.push(kept);
        assert(version@.subrange(0, i + 1).map_values(|c: char| file_safe_char(c)) =~= version@.subrange(
            0,
            i as int,
        ).map_values(|c: char| file_safe_char(c)).push(file_safe_char(c)));
        i = i + 1;
    }
    assert(version@.subrange(0, version@.len() as int) =~= version@);
    let hex = chars_of(hash_hex);
    let prefix = crate::text::substring(hex.as_slice(), 0, 12);
    let mut out = string_from_chars(chars_of(mod_id).as_slice());
    out.append("-");
    out.append(string_from_chars(safe.as_slice()).as_str());
    out.append("-");
    out.append(prefix.as_str());
    out.append(".jar");
    out
}

// ---------------------------------------------------------------------------
// Fabric metadata
// ---------------------------------------------------------------------------

/// What `serde_json` reads out of `fabric.mod.json`: `None` where the bytes
/// are not one JSON value; else the `schemaVersion` key where it is an
/// integer that fits a `u64`, and the `id`, `version`, `name` and
/// `environment` keys where they are strings.
pub uninterp spec fn fabric_json_fields(bytes: Seq<u8>) -> Option<
    (Option<u64>, Option<Seq<char>>, Option<Seq<char>>, Option<Seq<char>>, Option<Seq<char>>),
>;

pub open spec fn opt_str(value: Option<String>) -> Option<Seq<char>> {
    match value {
        Some(s) => Some(s@),
        None => None,
    }
}

/// The keys of `fabric.mod.json` that identify a mod, as
/// `serde_json::from_slice` into a `serde_json::Value` followed by
/// `Value::get` with `Value::as_u64` / `Value::as_str` reads them. The
/// contract names the result; the JSON grammar is serde_json's and is not
/// restated here.
#[verifier::external_body]
fn read_fabric_json(bytes: &[u8]) -> (r: Option<
    (Option<u64>, Option<String>, Option<String>, Option<String>, Option<String>),
>)
    ensures
        match r {
            Some((schema, id, version, name, environment)) => fabric_json_fields(bytes@) == Some(
                (schema, opt_str(id), opt_str(version), opt_str(name), opt_str(environment)),
            ),
            None => fabric_json_fields(bytes@) is None,
        },
{
    let value: serde_json::Value = serde_json::from_slice(bytes).ok()?;
    let schema = value.get("schemaVersion").and_then(serde_json::Value::as_u64);
    let id = value.get("id").and_then(serde_json::Value::as_str).map(str::to_owned);
    let version = value.get("version").and_then(serde_json::Value::as_str).map(str::to_owned);
    let name = value.get("name").and_then(serde_json::Value::as_str).map(str::to_owned);
    let environment = value.get("environment").and_then(serde_json::Value::as_str).map(str::to_owned);
    Some((schema, id, version, name, environment))
}

/// Why `fabric.mod.json` does not identify a mod.
#[derive(Debug)]
pub enum MetadataError {
    NotJson,
    NoSchemaVersion,
    UnsupportedSchema { schema: u64 },
    NoId,
    NoVersion,
    InvalidModId { id: String },
    EmptyVersion,
}

/// The text of a metadata error.
pub open spec fn metadata_message(e: MetadataError) -> Seq<char> {
    match e {
        MetadataError::NotJson => "fabric.mod.json is not valid JSON"@,
        MetadataError::NoSchemaVersion => "fabric.mod.json has no numeric schemaVersion"@,
        MetadataError::UnsupportedSchema { schema } => "unsupported Fabric metadata schemaVersion "@ + decimal_spec(
            schema as nat,
        ),
        MetadataError::NoId => "fabric.mod.json has no string id"@,
        MetadataError::NoVersion => "fabric.mod.json has no string version"@,
        MetadataError::InvalidModId { id } => "invalid Fabric mod id \""@ + id@ + "\""@,
        MetadataError::EmptyVersion => "Fabric mod version is empty"@,
    }
}

impl MetadataError {
    pub fn message(&self) -> (r: String)
        ensures
            self is NotJson ==> r@ == "fabric.mod.json is not valid JSON"@,
            self is NoSchemaVersion ==> r@ == "fabric.mod.json has no numeric schemaVersion"@,
            self matches MetadataError::UnsupportedSchema { schema } ==> r@
                == "unsupported Fabric metadata schemaVersion "@ + decimal_spec(schema as nat),
            self is NoId ==> r@ == "fabric.mod.json has no string id"@,
            self is NoVersion ==> r@ == "fabric.mod.json has no string version"@,
            self matches MetadataError::InvalidModId { id } ==> r@ == "invalid Fabric mod id \""@ + id@ + "\""@,
            self is EmptyVersion ==> r@ == "Fabric mod version is empty"@,
            r@ == metadata_message(*self),
    {
        match self {
            MetadataError::NotJson => String::from_str("fabric.mod.json is not valid JSON"),
            MetadataError::NoSchemaVersion => String::from_str("fabric.mod.json has no numeric schemaVersion"),
            MetadataError::UnsupportedSchema { schema } => {
                let mut text = String::from_str("unsupported Fabric metadata schemaVersion ");
                text.append(decimal_string(*schema).as_str());
                text
            },
            MetadataError::NoId => String::from_str("fabric.mod.json has no string id"),
            MetadataError::NoVersion => String::from_str("fabric.mod.json has no string version"),
            MetadataError::InvalidModId { id } => {
                let mut text = String::from_str("invalid Fabric mod id \"");
                text.append(id.as_str());
                text.append("\"");
                text
            },
            MetadataError::EmptyVersion => String::from_str("Fabric mod version is empty"),
        }
    }
}

pub open spec fn environment_spec(environment: Option<Seq<char>>) -> ModEnvironment {
    match environment {
        None => ModEnvironment::Universal,
        Some(e) => if e == "*"@ {
            ModEnvironment::Universal
        } else if e == "server"@ {
            ModEnvironment::Server
        } else if e == "client"@ {
            ModEnvironment::Client
        } else {
            ModEnvironment::Unknown
        },
    }
}

/// Why the fields fail, in the order they are checked; `None` where they
/// identify a mod.
pub open spec fn metadata_fields_error(
    schema: Option<u64>,
    id: Option<Seq<char>>,
    version: Option<Seq<char>>,
) -> Option<int> {
    if schema is None {
        Some(1)
    } else if schema->0 != 1 {
        Some(2)
    } else if id is None {
        Some(3)
    } else if version is None {
        Some(4)
    } else if !valid_mod_id(id->0) {
        Some(5)
    } else if trim_spec(version->0).len() == 0 {
        Some(6)
    } else {
        None
    }
}

pub open spec fn metadata_error_code(e: MetadataError) -> int {
    match e {
        MetadataError::NotJson => 0,
        MetadataError::NoSchemaVersion => 1,
        MetadataError::UnsupportedSchema { .. } => 2,
        MetadataError::NoId => 3,
        MetadataError::NoVersion => 4,
        MetadataError::InvalidModId { .. } => 5,
        MetadataError::EmptyVersion => 6,
    }
}

/// The metadata named by the fields of `fabric.mod.json`: schema version
/// 1, a valid mod id and a version that is not blank; the environment
/// `*` or absent is universal, `server` and `client` are themselves, and
/// anything else is unknown.
pub fn fabric_metadata_from_fields(
    schema: Option<u64>,
    id: Option<String>,
    version: Option<String>,
    name: Option<String>,
    environment: Option<String>,
) -> (r: Result<FabricModMetadata, MetadataError>)
    ensures
        match metadata_fields_error(schema, opt_str(id), opt_str(version)) {
            Some(code) => r matches Err(e) && metadata_error_code(e) == code && (e matches MetadataError::UnsupportedSchema {
                schema: s,
            } ==> Some(s) == schema) && (e matches MetadataError::InvalidModId { id: bad } ==> Some(bad@) == opt_str(id)),
            None => r matches Ok(m) && {
                &&& Some(m.mod_id@) == opt_str(id)
                &&& Some(m.version@) == opt_str(version)
                &&& opt_str(m.name) == opt_str(name)
                &&& m.environment == environment_spec(opt_str(environment))
            },
        },
{
    let schema = match schema {
        Some(s) => s,
        None => {
            return Err(MetadataError::NoSchemaVersion);
        },
    };
    if schema != 1 {
        return Err(MetadataError::UnsupportedSchema { schema });
    }
    let id = match id {
        Some(id) => id,
        None => {
            return Err(MetadataError::NoId);
        },
    };
    let version = match version {
        Some(v) => v,
        None => {
            return Err(MetadataError::NoVersion);
        },
    };
    if !validate_mod_id(id.as_str()) {
        return Err(MetadataError::InvalidModId { id });
    }
    let trimmed = crate::text::trim(version.as_str());
    if trimmed.as_str().unicode_len() == 0 {
        return Err(MetadataError::EmptyVersion);
    }
    let environment = match environment {
        None => ModEnvironment::Universal,
        Some(e) => {
            if e == String::from_str("*") {
                ModEnvironment::Universal
            } else if e == String::from_str("server") {
                ModEnvironment::Server
            } else if e == String::from_str("client") {
                ModEnvironment::Client
            } else {
                ModEnvironment::Unknown
            }
        },
    };
    Ok(FabricModMetadata { mod_id: id, version, name, environment })
}

/// Parses `fabric.mod.json`.
pub fn parse_fabric_metadata(bytes: &[u8]) -> (r: Result<FabricModMetadata, MetadataError>)
    ensures
        match fabric_json_fields(bytes@) {
            None => r matches Err(e) && e is NotJson,
            Some((schema, id, version, name, environment)) => match metadata_fields_error(schema, id, version) {
                Some(code) => r matches Err(e) && metadata_error_code(e) == code,
                None => r matches Ok(m) && {
                    &&& Some(m.mod_id@) == id
                    &&& Some(m.version@) == version
                    &&& opt_str(m.name) == name
                    &&& m.environment == environment_spec(environment)
                },
            },
        },
{
    match read_fabric_json(bytes) {
        None => Err(MetadataError::NotJson),
        Some((schema, id, version, name, environment)) => fabric_metadata_from_fields(
            schema,
            id,
            version,
            name,
            environment,
        ),
    }
}


// ---------------------------------------------------------------------------
// Inspecting a JAR
// ---------------------------------------------------------------------------

/// Why a JAR does not identify a Fabric mod.
#[derive(Debug)]
pub enum JarError {
    /// The JAR exceeds `MAX_JAR_BYTES`.
    TooLarge,
    /// `fabric.mod.json` could not be read out of the archive.
    Archive(ZipError),
    /// `fabric.mod.json` does not identify a mod.
    Metadata(MetadataError),
}

impl JarError {
    pub fn message(&self) -> (r: String)
        ensures
            self is TooLarge ==> r@ == "JAR exceeds the 256 MiB safety limit"@,
            self is Archive ==> r@ == "JAR does not hold a readable root fabric.mod.json"@,
            self matches JarError::Metadata(e) ==> r@ == metadata_message(*e),
    {
        match self {
            JarError::TooLarge => String::from_str("JAR exceeds the 256 MiB safety limit"),
            JarError::Archive(_) => String::from_str("JAR does not hold a readable root fabric.mod.json"),
            JarError::Metadata(e) => e.message(),
        }
    }
}

/// The bytes of `fabric.mod.json` in a JAR.
pub open spec fn metadata_entry(bytes: Seq<u8>) -> Option<Seq<u8>> {
    zip_entry_spec(bytes, vstd::utf8::encode_utf8("fabric.mod.json"@))
}

/// Identifies the Fabric mod in the bytes of a JAR. The caller reads the
/// file and hashes its bytes (`artifact_hash`, lower-case hex); the file
/// name and path are recorded as given.
pub fn inspect_fabric_mod(file_name: String, path: String, bytes: &[u8], artifact_hash: String) -> (r: Result<
    InstalledServerMod,
    JarError,
>)
    ensures
        bytes@.len() > MAX_JAR_BYTES ==> r matches Err(JarError::TooLarge),
        bytes@.len() <= MAX_JAR_BYTES ==> match metadata_entry(bytes@) {
            None => r matches Err(JarError::Archive(_)),
            Some(json) => match fabric_json_fields(json) {
                None => r matches Err(JarError::Metadata(e)) && e is NotJson,
                Some((schema, id, version, name, environment)) => match metadata_fields_error(schema, id, version) {
                    Some(code) => r matches Err(JarError::Metadata(e)) && metadata_error_code(e) == code,
                    None => r matches Ok(m) && {
                        &&& m.file_name@ == file_name@
                        &&& m.path@ == path@
                        &&& Some(m.mod_id@) == id
                        &&& Some(m.version@) == version
                        &&& m.artifact_hash@ == artifact_hash@
                        &&& m.environment == environment_spec(environment)
                        &&& m.component_kind == component_kind_spec(m.mod_id@)
                    },
                },
            },
        },
{
    if bytes.len() > MAX_JAR_BYTES {
        return Err(JarError::TooLarge);
    }
    let json = match read_zip_entry(bytes, "fabric.mod.json") {
        Ok(json) => json,
        Err(e) => {
            return Err(JarError::Archive(e));
        },
    };
    let metadata = match parse_fabric_metadata(json.as_slice()) {
        Ok(m) => m,
        Err(e) => {
            return Err(JarError::Metadata(e));
        },
    };
    let kind = component_kind(metadata.mod_id.as_str());
    Ok(InstalledServerMod {
        file_name,
        path,
        mod_id: metadata.mod_id,
        version: metadata.version,
        artifact_hash,
        environment: metadata.environment,
        component_kind: kind,
    })
}


// ---------------------------------------------------------------------------
// The world's server-mod profile against the installed inventory
// ---------------------------------------------------------------------------

/// Where a required artifact must be present.
#[derive(Debug, Clone, Copy, PartialEq, Eq, Structural)]
pub enum ArtifactSide {
    Client,
    Server,
    Both,
}

/// One artifact of a world's canonical compatibility manifest; the hash is
/// lower-case hex.
#[derive(Debug)]
pub struct ArtifactRequirement {
    pub artifact_id: String,
    pub version: String,
    pub artifact_hash: String,
    pub side: ArtifactSide,
}

/// The part of a world's runtime compatibility manifest that names its
/// server mods.
#[derive(Debug)]
pub struct RuntimeCompatibilityManifest {
    pub required_server_mods: Vec<ArtifactRequirement>,
}

#[derive(Debug)]
pub struct RequiredServerMod {
    pub mod_id: String,
    pub version: String,
    pub artifact_hash: String,
    pub side: ArtifactSide,
    pub component_kind: ModComponentKind,
}

pub struct RequirementView {
    pub artifact_id: Seq<char>,
    pub version: Seq<char>,
    pub artifact_hash: Seq<char>,
    pub side: ArtifactSide,
}

impl View for ArtifactRequirement {
    type V = RequirementView;

    open spec fn view(&self) -> RequirementView {
        RequirementView {
            artifact_id: self.artifact_id@,
            version: self.version@,
            artifact_hash: self.artifact_hash@,
            side: self.side,
        }
    }
}

pub struct InstalledView {
    pub file_name: Seq<char>,
    pub mod_id: Seq<char>,
    pub version: Seq<char>,
    pub artifact_hash: Seq<char>,
    pub environment: ModEnvironment,
    pub component_kind: ModComponentKind,
}

impl View for InstalledServerMod {
    type V = InstalledView;

    open spec fn view(&self) -> InstalledView {
        InstalledView {
            file_name: self.file_name@,
            mod_id: self.mod_id@,
            version: self.version@,
            artifact_hash: self.artifact_hash@,
            environment: self.environment,
            component_kind: self.component_kind,
        }
    }
}

pub struct IssueView {
    pub kind: ModIssueKind,
    pub mod_id: Option<Seq<char>>,
    pub file_name: Option<Seq<char>>,
    pub message: Seq<char>,
}

impl View for ModIssue {
    type V = IssueView;

    open spec fn view(&self) -> IssueView {
        IssueView { kind: self.kind, mod_id: opt_str(self.mod_id), file_name: opt_str(self.file_name), message: self.message@ }
    }
}

pub struct RequiredView {
    pub mod_id: Seq<char>,
    pub version: Seq<char>,
    pub artifact_hash: Seq<char>,
    pub side: ArtifactSide,
    pub component_kind: ModComponentKind,
}

impl View for RequiredServerMod {
    type V = RequiredView;

    open spec fn view(&self) -> RequiredView {
        RequiredView {
            mod_id: self.mod_id@,
            version: self.version@,
            artifact_hash: self.artifact_hash@,
            side: self.side,
            component_kind: self.component_kind,
        }
    }
}

pub open spec fn requirements_view(values: Seq<ArtifactRequirement>) -> Seq<RequirementView> {
    values.map_values(|v: ArtifactRequirement| v@)
}

pub open spec fn installed_view(values: Seq<InstalledServerMod>) -> Seq<InstalledView> {
    values.map_values(|v: InstalledServerMod| v@)
}

pub open spec fn issues_view(values: Seq<ModIssue>) -> Seq<IssueView> {
    values.map_values(|v: ModIssue| v@)
}

pub open spec fn required_view(values: Seq<RequiredServerMod>) -> Seq<RequiredView> {
    values.map_values(|v: RequiredServerMod| v@)
}

/// Strictly before in lexicographic order.
pub open spec fn lex_lt(a: Seq<char>, b: Seq<char>) -> bool {
    lex_le(a, b) && a != b
}

/// Requirements ordered by artifact id, then version, then hash.
pub open spec fn requirement_le() -> spec_fn(RequirementView, RequirementView) -> bool {
    |a: RequirementView, b: RequirementView|
        lex_lt(a.artifact_id, b.artifact_id) || (a.artifact_id == b.artifact_id && (lex_lt(a.version, b.version) || (
        a.version == b.version && lex_le(a.artifact_hash, b.artifact_hash))))
}

pub open spec fn is_legacy_entry(r: RequirementView) -> bool {
    r.artifact_id == "swarmcraft.legacy-compatibility"@
}

/// The entries of a profile other than the legacy compatibility marker.
pub open spec fn physical_entries(manifest: Seq<RequirementView>) -> Seq<RequirementView>
    decreases manifest.len(),
{
    if manifest.len() == 0 {
        manifest
    } else {
        let earlier = physical_entries(manifest.drop_last());
        if is_legacy_entry(manifest.last()) {
            earlier
        } else {
            earlier.push(manifest.last())
        }
    }
}

/// The physical requirements of a profile: every entry but the legacy
/// compatibility marker, ordered by id, version and hash.
pub open spec fn canonical_requirements(manifest: Seq<RequirementView>) -> Seq<RequirementView> {
    sort_by(physical_entries(manifest), requirement_le())
}

pub open spec fn is_user_requirement(r: RequirementView) -> bool {
    component_kind_spec(r.artifact_id) == ModComponentKind::UserServerMod
}

pub open spec fn required_of(r: RequirementView) -> RequiredView {
    RequiredView {
        mod_id: r.artifact_id,
        version: r.version,
        artifact_hash: r.artifact_hash,
        side: r.side,
        component_kind: component_kind_spec(r.artifact_id),
    }
}

pub open spec fn issue(kind: ModIssueKind, mod_id: Seq<char>, file_name: Option<Seq<char>>, message: Seq<char>) -> IssueView {
    IssueView { kind, mod_id: Some(mod_id), file_name, message }
}

/// A client-only issue for each installed client-only mod, in order.
pub open spec fn client_only_issues(installed: Seq<InstalledView>) -> Seq<IssueView>
    decreases installed.len(),
{
    if installed.len() == 0 {
        Seq::empty()
    } else {
        let earlier = client_only_issues(installed.drop_last());
        let m = installed.last();
        if m.environment == ModEnvironment::Client {
            earlier.push(issue(
                ModIssueKind::ClientOnly,
                m.mod_id,
                Some(m.file_name),
                m.mod_id + " is client-only and cannot be loaded by the server profile"@,
            ))
        } else {
            earlier
        }
    }
}

/// How many installed mods claim `id`.
pub open spec fn claim_count(installed: Seq<InstalledView>, id: Seq<char>) -> nat
    decreases installed.len(),
{
    if installed.len() == 0 {
        0
    } else {
        claim_count(installed.drop_last(), id) + if installed.last().mod_id == id { 1nat } else { 0nat }
    }
}

/// Two installed mods claim `id` at different versions.
pub open spec fn versions_conflict(installed: Seq<InstalledView>, id: Seq<char>) -> bool {
    exists|i: int, j: int|
        0 <= i < installed.len() && 0 <= j < installed.len() && (#[trigger] installed[i]).mod_id == id && (
        #[trigger] installed[j]).mod_id == id && installed[i].version != installed[j].version
}

/// For each claimed id in increasing order: a duplicate issue where more
/// than one JAR claims it, followed by a conflicting-version issue where
/// they differ in version.
pub open spec fn duplicate_issues(installed: Seq<InstalledView>, ids: Seq<Seq<char>>) -> Seq<IssueView>
    decreases ids.len(),
{
    if ids.len() == 0 {
        Seq::empty()
    } else {
        let earlier = duplicate_issues(installed, ids.drop_last());
        let id = ids.last();
        if claim_count(installed, id) > 1 {
            let dup = earlier.push(issue(ModIssueKind::DuplicateModId, id, None, "multiple JARs claim Fabric mod id "@ + id));
            if versions_conflict(installed, id) {
                dup.push(issue(ModIssueKind::ConflictingVersion, id, None, "multiple versions of "@ + id + " are installed"@))
            } else {
                dup
            }
        } else {
            earlier
        }
    }
}

/// The issue, if any, of one required user mod against the inventory.
pub open spec fn requirement_issue(r: RequirementView, installed: Seq<InstalledView>) -> Seq<IssueView> {
    if !(exists|i: int| 0 <= i < installed.len() && (#[trigger] installed[i]).mod_id == r.artifact_id) {
        seq![issue(
            ModIssueKind::MissingRequired,
            r.artifact_id,
            None,
            "required server mod "@ + r.artifact_id + " "@ + r.version + " is missing"@,
        )]
    } else if exists|i: int|
        0 <= i < installed.len() && (#[trigger] installed[i]).mod_id == r.artifact_id && installed[i].artifact_hash
            == r.artifact_hash {
        Seq::empty()
    } else if exists|i: int|
        0 <= i < installed.len() && (#[trigger] installed[i]).mod_id == r.artifact_id && installed[i].version
            != r.version {
        seq![issue(
            ModIssueKind::VersionMismatch,
            r.artifact_id,
            None,
            r.artifact_id + " is installed at a different version; world requires "@ + r.version,
        )]
    } else {
        seq![issue(
            ModIssueKind::HashMismatch,
            r.artifact_id,
            None,
            r.artifact_id + " bytes do not match the canonical artifact hash"@,
        )]
    }
}

pub open spec fn requirement_issues(required: Seq<RequirementView>, installed: Seq<InstalledView>) -> Seq<IssueView>
    decreases required.len(),
{
    if required.len() == 0 {
        Seq::empty()
    } else {
        let earlier = requirement_issues(required.drop_last(), installed);
        let r = required.last();
        if is_user_requirement(r) {
            earlier + requirement_issue(r, installed)
        } else {
            earlier
        }
    }
}

/// The id is required as a user server mod.
pub open spec fn required_user_id(required: Seq<RequirementView>, id: Seq<char>) -> bool {
    exists|k: int| 0 <= k < required.len() && (#[trigger] required[k]).artifact_id == id && is_user_requirement(required[k])
}

/// An unexpected-mod issue for each installed user server mod that the
/// profile does not require, in order.
pub open spec fn unexpected_issues(installed: Seq<InstalledView>, required: Seq<RequirementView>) -> Seq<IssueView>
    decreases installed.len(),
{
    if installed.len() == 0 {
        Seq::empty()
    } else {
        let earlier = unexpected_issues(installed.drop_last(), required);
        let m = installed.last();
        if m.component_kind == ModComponentKind::UserServerMod && !required_user_id(required, m.mod_id) {
            earlier.push(issue(
                ModIssueKind::UnexpectedMod,
                m.mod_id,
                Some(m.file_name),
                m.mod_id + " is not part of this world's canonical server-mod profile and will not be launched"@,
            ))
        } else {
            earlier
        }
    }
}

/// The mod ids of an inventory, in order.
pub open spec fn mod_ids(installed: Seq<InstalledView>) -> Seq<Seq<char>> {
    installed.map_values(|m: InstalledView| m.mod_id)
}

/// The claimed mod ids, each once, in increasing order.
pub open spec fn claimed_ids(installed: Seq<InstalledView>) -> Seq<Seq<char>> {
    dedup_adjacent(sort_by(mod_ids(installed), text_le()))
}

/// The required server mods of canonical requirements.
pub open spec fn required_list(required: Seq<RequirementView>) -> Seq<RequiredView> {
    required.map_values(|v: RequirementView| required_of(v))
}

/// Every issue of an inventory against a profile, in the order they are
/// found: client-only mods, duplicate and conflicting claims, missing or
/// mismatched required mods, then unexpected mods.
pub open spec fn inventory_issues(manifest: Seq<RequirementView>, installed: Seq<InstalledView>) -> Seq<IssueView> {
    let required = canonical_requirements(manifest);
    client_only_issues(installed) + duplicate_issues(installed, claimed_ids(installed)) + requirement_issues(
        required,
        installed,
    ) + unexpected_issues(installed, required)
}


fn clone_requirement(r: &ArtifactRequirement) -> (c: ArtifactRequirement)
    ensures
        c@ == r@,
{
    ArtifactRequirement {
        artifact_id: r.artifact_id.clone(),
        version: r.version.clone(),
        artifact_hash: r.artifact_hash.clone(),
        side: r.side,
    }
}

fn requirement_le_exec(a: &ArtifactRequirement, b: &ArtifactRequirement) -> (r: bool)
    ensures
        r == (requirement_le())(a@, b@),
{
    if !(a.artifact_id == b.artifact_id) {
        return lex_le_exec(&chars_of(a.artifact_id.as_str()), &chars_of(b.artifact_id.as_str()));
    }
    if !(a.version == b.version) {
        return lex_le_exec(&chars_of(a.version.as_str()), &chars_of(b.version.as_str()));
    }
    lex_le_exec(&chars_of(a.artifact_hash.as_str()), &chars_of(b.artifact_hash.as_str()))
}

fn insert_requirement(values: &mut Vec<ArtifactRequirement>, x: ArtifactRequirement)
    ensures
        requirements_view(final(values)@) == insert_by(requirements_view(old(values)@), x@, requirement_le()),
{
    let ghost old_values = requirements_view(values@);
    let ghost xv = x@;
    let mut j: usize = values.len();
    assert(old_values.subrange(0, old_values.len() as int) =~= old_values);
    assert(insert_by(old_values, xv, requirement_le()) + old_values.subrange(
        old_values.len() as int,
        old_values.len() as int,
    ) =~= insert_by(old_values, xv, requirement_le()));
    loop
        invariant
            j <= values@.len(),
            requirements_view(values@) == old_values,
            x@ == xv,
            insert_by(old_values, xv, requirement_le()) == insert_by(old_values.subrange(0, j as int), xv, requirement_le())
                + old_values.subrange(j as int, old_values.len() as int),
        ensures
            j <= values@.len(),
            requirements_view(values@) == old_values,
            insert_by(old_values, xv, requirement_le()) == insert_by(old_values.subrange(0, j as int), xv, requirement_le())
                + old_values.subrange(j as int, old_values.len() as int),
            j == 0 || (requirement_le())(old_values[j - 1], xv),
        decreases j,
    {
        if j == 0 {
            break;
        }
        assert(old_values[j - 1] == values@[j - 1]@);
        if requirement_le_exec(&values[j - 1], &x) {
            break;
        }
        proof {
            let pre = old_values.subrange(0, j as int);
            assert(pre.last() == old_values[j - 1]);
            assert(pre.drop_last() =~= old_values.subrange(0, j - 1));
            assert(insert_by(pre, xv, requirement_le()) == insert_by(old_values.subrange(0, j - 1), xv, requirement_le()).push(
                old_values[j - 1],
            ));
            assert(insert_by(old_values.subrange(0, j - 1), xv, requirement_le()).push(old_values[j - 1])
                + old_values.subrange(j as int, old_values.len() as int) =~= insert_by(
                old_values.subrange(0, j - 1),
                xv,
                requirement_le(),
            ) + old_values.subrange(j - 1, old_values.len() as int));
        }
        j = j - 1;
    }
    proof {
        let pre = old_values.subrange(0, j as int);
        if j > 0 {
            assert(pre.last() == old_values[j - 1]);
        }
        assert(insert_by(pre, xv, requirement_le()) =~= pre.push(xv));
    }
    values.insert(j, x);
    assert(requirements_view(values@) =~= old_values.subrange(0, j as int).push(xv) + old_values.subrange(
        j as int,
        old_values.len() as int,
    ));
}

/// The physical requirements of a profile in canonical order.
pub fn canonical_physical_requirements(manifest: &RuntimeCompatibilityManifest) -> (r: Vec<ArtifactRequirement>)
    ensures
        requirements_view(r@) == canonical_requirements(requirements_view(manifest.required_server_mods@)),
{
    let ghost all = requirements_view(manifest.required_server_mods@);
    let mut sorted: Vec<ArtifactRequirement> = Vec::new();
    let legacy = String::from_str("swarmcraft.legacy-compatibility");
    let mut i: usize = 0;
    while i < manifest.required_server_mods.len()
        invariant
            i <= all.len(),
            all == requirements_view(manifest.required_server_mods@),
            legacy@ == "swarmcraft.legacy-compatibility"@,
            requirements_view(sorted@) == sort_by(physical_entries(all.subrange(0, i as int)), requirement_le()),
        decreases all.len() - i,
    {
        let entry = &manifest.required_server_mods[i];
        proof {
            assert(all.subrange(0, i + 1).drop_last() =~= all.subrange(0, i as int));
            assert(all.subrange(0, i + 1).last() == all[i as int]);
        }
        if !(entry.artifact_id == legacy) {
            let copy = clone_requirement(entry);
            insert_requirement(&mut sorted, copy);
            proof {
                let kept = physical_entries(all.subrange(0, i as int));
                assert(physical_entries(all.subrange(0, i + 1)) == kept.push(all[i as int]));
                assert(kept.push(all[i as int]).drop_last() =~= kept);
            }
        }
        i = i + 1;
    }
    assert(all.subrange(0, all.len() as int) =~= all);
    sorted
}

fn required_from(r: &ArtifactRequirement) -> (m: RequiredServerMod)
    ensures
        m@ == required_of(r@),
{
    RequiredServerMod {
        mod_id: r.artifact_id.clone(),
        version: r.version.clone(),
        artifact_hash: r.artifact_hash.clone(),
        side: r.side,
        component_kind: component_kind(r.artifact_id.as_str()),
    }
}

/// `text` followed by `suffix`.
fn joined(text: &String, suffix: &str) -> (r: String)
    ensures
        r@ == text@ + suffix@,
{
    let mut out = text.clone();
    out.append(suffix);
    out
}

fn client_only_issue_list(installed: &[InstalledServerMod]) -> (r: Vec<ModIssue>)
    ensures
        issues_view(r@) == client_only_issues(installed_view(installed@)),
{
    let ghost all = installed_view(installed@);
    let mut out: Vec<ModIssue> = Vec::new();
    let mut i: usize = 0;
    while i < installed.len()
        invariant
            i <= all.len(),
            all == installed_view(installed@),
            issues_view(out@) == client_only_issues(all.subrange(0, i as int)),
        decreases all.len() - i,
    {
        let m = &installed[i];
        proof {
            assert(all.subrange(0, i + 1).drop_last() =~= all.subrange(0, i as int));
            assert(all.subrange(0, i + 1).last() == all[i as int]);
        }
        if m.environment == ModEnvironment::Client {
            let item = ModIssue {
                kind: ModIssueKind::ClientOnly,
                mod_id: Some(m.mod_id.clone()),
                file_name: Some(m.file_name.clone()),
                message: joined(&m.mod_id, " is client-only and cannot be loaded by the server profile"),
            };
            out.push(item);
            assert(issues_view(out@) =~= issues_view(out@.drop_last()).push(item@));
        }
        i = i + 1;
    }
    assert(all.subrange(0, all.len() as int) =~= all);
    out
}

fn count_claims(installed: &[InstalledServerMod], id: &String) -> (r: usize)
    ensures
        r == claim_count(installed_view(installed@), id@),
{
    let ghost all = installed_view(installed@);
    let mut count: usize = 0;
    let mut i: usize = 0;
    while i < installed.len()
        invariant
            i <= all.len(),
            all == installed_view(installed@),
            count == claim_count(all.subrange(0, i as int), id@),
            count <= i,
        decreases all.len() - i,
    {
        proof {
            assert(all.subrange(0, i + 1).drop_last() =~= all.subrange(0, i as int));
            assert(all.subrange(0, i + 1).last() == all[i as int]);
        }
        if installed[i].mod_id == *id {
            count = count + 1;
        }
        i = i + 1;
    }
    assert(all.subrange(0, all.len() as int) =~= all);
    count
}

fn has_version_conflict(installed: &[InstalledServerMod], id: &String) -> (r: bool)
    ensures
        r == versions_conflict(installed_view(installed@), id@),
{
    let ghost all = installed_view(installed@);
    let mut first: Option<usize> = None;
    let mut i: usize = 0;
    while i < installed.len()
        invariant
            i <= all.len(),
            all == installed_view(installed@),
            match first {
                None => forall|k: int| 0 <= k < i ==> (#[trigger] all[k]).mod_id != id@,
                Some(f) => f < i && all[f as int].mod_id == id@ && forall|k: int|
                    0 <= k < i && (#[trigger] all[k]).mod_id == id@ ==> all[k].version == all[f as int].version,
            },
        decreases all.len() - i,
    {
        if installed[i].mod_id == *id {
            match first {
                None => {
                    first = Some(i);
                },
                Some(f) => {
                    if !(installed[i].version == installed[f].version) {
                        assert(all[i as int].version != all[f as int].version);
                        return true;
                    }
                },
            }
        }
        i = i + 1;
    }
    assert(!versions_conflict(all, id@)) by {
        if versions_conflict(all, id@) {
            let (a, b) = choose|a: int, b: int|
                0 <= a < all.len() && 0 <= b < all.len() && (#[trigger] all[a]).mod_id == id@ && (#[trigger] all[b]).mod_id
                    == id@ && all[a].version != all[b].version;
            match first {
                None => {
                    assert(all[a].mod_id != id@);
                },
                Some(f) => {
                    assert(all[a].version == all[f as int].version);
                    assert(all[b].version == all[f as int].version);
                },
            }
        }
    }
    false
}

fn duplicate_issue_list(installed: &[InstalledServerMod]) -> (r: Vec<ModIssue>)
    ensures
        issues_view(r@) == duplicate_issues(installed_view(installed@), claimed_ids(installed_view(installed@))),
{
    let ghost all = installed_view(installed@);
    let mut ids: Vec<String> = Vec::new();
    let mut i: usize = 0;
    while i < installed.len()
        invariant
            i <= all.len(),
            all == installed_view(installed@),
            ids@.len() == i,
            texts_of(ids@) == mod_ids(all.subrange(0, i as int)),
        decreases all.len() - i,
    {
        assert(all[i as int] == installed@[i as int]@);
        let ghost before = ids@;
        ids.push(installed[i].mod_id.clone());
        proof {
            assert forall|k: int| 0 <= k < i + 1 implies texts_of(ids@)[k] == mod_ids(all.subrange(0, i + 1))[k] by {
                if k < i {
                    assert(ids@[k] == before[k]);
                    assert(texts_of(before)[k] == mod_ids(all.subrange(0, i as int))[k]);
                }
            }
            assert(texts_of(ids@) =~= mod_ids(all.subrange(0, i + 1)));
        }
        i = i + 1;
    }
    assert(all.subrange(0, all.len() as int) =~= all);
    let distinct = sorted_distinct_texts(ids);
    let ghost keys = texts_of(distinct@);
    let mut out: Vec<ModIssue> = Vec::new();
    let mut k: usize = 0;
    while k < distinct.len()
        invariant
            k <= keys.len(),
            keys == texts_of(distinct@),
            all == installed_view(installed@),
            issues_view(out@) == duplicate_issues(all, keys.subrange(0, k as int)),
        decreases keys.len() - k,
    {
        let id = &distinct[k];
        proof {
            assert(keys.subrange(0, k + 1).drop_last() =~= keys.subrange(0, k as int));
            assert(keys.subrange(0, k + 1).last() == keys[k as int]);
        }
        if count_claims(installed, id) > 1 {
            let mut message = String::from_str("multiple JARs claim Fabric mod id ");
            message.append(id.as_str());
            let dup = ModIssue { kind: ModIssueKind::DuplicateModId, mod_id: Some(id.clone()), file_name: None, message };
            out.push(dup);
            assert(issues_view(out@) =~= issues_view(out@.drop_last()).push(dup@));
            if has_version_conflict(installed, id) {
                let mut message = String::from_str("multiple versions of ");
                message.append(id.as_str());
                message.append(" are installed");
                let conflict = ModIssue {
                    kind: ModIssueKind::ConflictingVersion,
                    mod_id: Some(id.clone()),
                    file_name: None,
                    message,
                };
                out.push(conflict);
                assert(issues_view(out@) =~= issues_view(out@.drop_last()).push(conflict@));
            }
        }
        k = k + 1;
    }
    assert(keys.subrange(0, keys.len() as int) =~= keys);
    out
}

fn requirement_issue_for(r: &ArtifactRequirement, installed: &[InstalledServerMod]) -> (out: Vec<ModIssue>)
    ensures
        issues_view(out@) == requirement_issue(r@, installed_view(installed@)),
{
    let ghost all = installed_view(installed@);
    let mut claimed = false;
    let mut exact = false;
    let mut other_version = false;
    let mut i: usize = 0;
    while i < installed.len()
        invariant
            i <= all.len(),
            all == installed_view(installed@),
            claimed == exists|k: int| 0 <= k < i && (#[trigger] all[k]).mod_id == r@.artifact_id,
            exact == exists|k: int| 0 <= k < i && (#[trigger] all[k]).mod_id == r@.artifact_id && all[k].artifact_hash == r@.artifact_hash,
            other_version == exists|k: int| 0 <= k < i && (#[trigger] all[k]).mod_id == r@.artifact_id && all[k].version != r@.version,
        decreases all.len() - i,
    {
        let m = &installed[i];
        assert(all[i as int] == m@);
        if m.mod_id == r.artifact_id {
            claimed = true;
            if m.artifact_hash == r.artifact_hash {
                exact = true;
            }
            if !(m.version == r.version) {
                other_version = true;
            }
        }
        i = i + 1;
    }
    let mut out: Vec<ModIssue> = Vec::new();
    if !claimed {
        let mut message = String::from_str("required server mod ");
        message.append(r.artifact_id.as_str());
        message.append(" ");
        message.append(r.version.as_str());
        message.append(" is missing");
        out.push(ModIssue { kind: ModIssueKind::MissingRequired, mod_id: Some(r.artifact_id.clone()), file_name: None, message });
    } else if exact {
    } else if other_version {
        let mut message = r.artifact_id.clone();
        message.append(" is installed at a different version; world requires ");
        message.append(r.version.as_str());
        out.push(ModIssue { kind: ModIssueKind::VersionMismatch, mod_id: Some(r.artifact_id.clone()), file_name: None, message });
    } else {
        let message = joined(&r.artifact_id, " bytes do not match the canonical artifact hash");
        out.push(ModIssue { kind: ModIssueKind::HashMismatch, mod_id: Some(r.artifact_id.clone()), file_name: None, message });
    }
    assert(issues_view(out@) =~= requirement_issue(r@, all));
    out
}

fn requirement_issue_list(required: &Vec<ArtifactRequirement>, installed: &[InstalledServerMod]) -> (r: Vec<ModIssue>)
    ensures
        issues_view(r@) == requirement_issues(requirements_view(required@), installed_view(installed@)),
{
    let ghost reqs = requirements_view(required@);
    let mut out: Vec<ModIssue> = Vec::new();
    let mut i: usize = 0;
    while i < required.len()
        invariant
            i <= reqs.len(),
            reqs == requirements_view(required@),
            issues_view(out@) == requirement_issues(reqs.subrange(0, i as int), installed_view(installed@)),
        decreases reqs.len() - i,
    {
        let r = &required[i];
        proof {
            assert(reqs.subrange(0, i + 1).drop_last() =~= reqs.subrange(0, i as int));
            assert(reqs.subrange(0, i + 1).last() == reqs[i as int]);
        }
        if component_kind(r.artifact_id.as_str()) == ModComponentKind::UserServerMod {
            let mut more = requirement_issue_for(r, installed);
            let ghost before = issues_view(out@);
            let ghost added = issues_view(more@);
            out.append(&mut more);
            assert(issues_view(out@) =~= before + added);
        }
        i = i + 1;
    }
    assert(reqs.subrange(0, reqs.len() as int) =~= reqs);
    out
}

fn is_required_user_id(required: &Vec<ArtifactRequirement>, id: &String) -> (r: bool)
    ensures
        r == required_user_id(requirements_view(required@), id@),
{
    let ghost reqs = requirements_view(required@);
    let mut i: usize = 0;
    while i < required.len()
        invariant
            i <= reqs.len(),
            reqs == requirements_view(required@),
            forall|k: int| 0 <= k < i ==> !((#[trigger] reqs[k]).artifact_id == id@ && is_user_requirement(reqs[k])),
        decreases reqs.len() - i,
    {
        if required[i].artifact_id == *id && component_kind(required[i].artifact_id.as_str()) == ModComponentKind::UserServerMod {
            assert(reqs[i as int].artifact_id == id@ && is_user_requirement(reqs[i as int]));
            return true;
        }
        i = i + 1;
    }
    false
}

fn unexpected_issue_list(installed: &[InstalledServerMod], required: &Vec<ArtifactRequirement>) -> (r: Vec<ModIssue>)
    ensures
        issues_view(r@) == unexpected_issues(installed_view(installed@), requirements_view(required@)),
{
    let ghost all = installed_view(installed@);
    let mut out: Vec<ModIssue> = Vec::new();
    let mut i: usize = 0;
    while i < installed.len()
        invariant
            i <= all.len(),
            all == installed_view(installed@),
            issues_view(out@) == unexpected_issues(all.subrange(0, i as int), requirements_view(required@)),
        decreases all.len() - i,
    {
        let m = &installed[i];
        proof {
            assert(all.subrange(0, i + 1).drop_last() =~= all.subrange(0, i as int));
            assert(all.subrange(0, i + 1).last() == all[i as int]);
        }
        if m.component_kind == ModComponentKind::UserServerMod && !is_required_user_id(required, &m.mod_id) {
            let item = ModIssue {
                kind: ModIssueKind::UnexpectedMod,
                mod_id: Some(m.mod_id.clone()),
                file_name: Some(m.file_name.clone()),
                message: joined(
                    &m.mod_id,
                    " is not part of this world's canonical server-mod profile and will not be launched",
                ),
            };
            out.push(item);
            assert(issues_view(out@) =~= issues_view(out@.drop_last()).push(item@));
        }
        i = i + 1;
    }
    assert(all.subrange(0, all.len() as int) =~= all);
    out
}

/// The required server mods of a profile, in canonical order, and every
/// issue of the installed inventory against it.
pub fn evaluate_inventory(manifest: &RuntimeCompatibilityManifest, installed: &[InstalledServerMod]) -> (r: (
    Vec<RequiredServerMod>,
    Vec<ModIssue>,
))
    ensures
        required_view(r.0@) == required_list(canonical_requirements(requirements_view(manifest.required_server_mods@))),
        issues_view(r.1@) == inventory_issues(requirements_view(manifest.required_server_mods@), installed_view(installed@)),
{
    let values = canonical_physical_requirements(manifest);
    let ghost reqs = requirements_view(values@);
    let mut required: Vec<RequiredServerMod> = Vec::new();
    let mut i: usize = 0;
    while i < values.len()
        invariant
            i <= reqs.len(),
            reqs == requirements_view(values@),
            required@.len() == i,
            required_view(required@) == required_list(reqs.subrange(0, i as int)),
        decreases reqs.len() - i,
    {
        assert(reqs[i as int] == values@[i as int]@);
        let m = required_from(&values[i]);
        let ghost before = required@;
        required.push(m);
        proof {
            assert forall|k: int| 0 <= k < i + 1 implies required_view(required@)[k] == required_list(
                reqs.subrange(0, i + 1),
            )[k] by {
                if k < i {
                    assert(required@[k] == before[k]);
                    assert(required_view(before)[k] == required_list(reqs.subrange(0, i as int))[k]);
                }
            }
            assert(required_view(required@) =~= required_list(reqs.subrange(0, i + 1)));
        }
        i = i + 1;
    }
    assert(reqs.subrange(0, reqs.len() as int) =~= reqs);
    let mut issues = client_only_issue_list(installed);
    let mut duplicates = duplicate_issue_list(installed);
    let mut mismatches = requirement_issue_list(&values, installed);
    let mut unexpected = unexpected_issue_list(installed, &values);
    let ghost a = issues_view(issues@);
    let ghost b = issues_view(duplicates@);
    let ghost c = issues_view(mismatches@);
    let ghost d = issues_view(unexpected@);
    issues.append(&mut duplicates);
    issues.append(&mut mismatches);
    issues.append(&mut unexpected);
    assert(issues_view(issues@) =~= a + b + c + d);
    (required, issues)
}

/// The issues of an installed inventory against a world's profile.
pub fn compare_runtime_profile(manifest: &RuntimeCompatibilityManifest, installed: &[InstalledServerMod]) -> (r: Vec<
    ModIssue,
>)
    ensures
        issues_view(r@) == inventory_issues(requirements_view(manifest.required_server_mods@), installed_view(installed@)),
{
    evaluate_inventory(manifest, installed).1
}


// ---------------------------------------------------------------------------
// Server-mod requirements chosen from inspected JARs
// ---------------------------------------------------------------------------

#[derive(Debug, Clone, Copy, PartialEq, Eq, Structural)]
pub enum RequirementErrorKind {
    ClientOnly,
    ManagedComponent,
    DuplicateModId,
}

/// Why a set of JARs cannot become a world's server-mod requirements.
#[derive(Debug)]
pub struct RequirementError {
    pub kind: RequirementErrorKind,
    pub mod_id: String,
}

impl RequirementError {
    /// The error's text.
    pub fn message(&self) -> (r: String)
        ensures
            r@ == (match self.kind {
                RequirementErrorKind::ClientOnly => "Fabric mod "@ + self.mod_id@
                    + " is client-only and cannot be required as a server mod"@,
                RequirementErrorKind::ManagedComponent => self.mod_id@
                    + " is a SwarmCraft-managed runtime component, not a user server mod"@,
                RequirementErrorKind::DuplicateModId => "duplicate Fabric mod id "@ + self.mod_id@
                    + " in selected server mods"@,
            }),
    {
        match self.kind {
            RequirementErrorKind::ClientOnly => {
                let mut out = String::from_str("Fabric mod ");
                out.append(self.mod_id.as_str());
                out.append(" is client-only and cannot be required as a server mod");
                out
            },
            RequirementErrorKind::ManagedComponent => joined(
                &self.mod_id,
                " is a SwarmCraft-managed runtime component, not a user server mod",
            ),
            RequirementErrorKind::DuplicateModId => {
                let mut out = String::from_str("duplicate Fabric mod id ");
                out.append(self.mod_id.as_str());
                out.append(" in selected server mods");
                out
            },
        }
    }
}

/// The requirement that one inspected JAR stands for: a client-only mod and
/// a managed runtime component cannot be one; a universal mod is needed on
/// both sides, any other on the server.
pub open spec fn requirement_of_spec(m: InstalledView) -> Result<RequirementView, (RequirementErrorKind, Seq<char>)> {
    if m.environment == ModEnvironment::Client {
        Err((RequirementErrorKind::ClientOnly, m.mod_id))
    } else if managed_spec(m.mod_id) {
        Err((RequirementErrorKind::ManagedComponent, m.mod_id))
    } else {
        Ok(
            RequirementView {
                artifact_id: m.mod_id,
                version: m.version,
                artifact_hash: m.artifact_hash,
                side: if m.environment == ModEnvironment::Universal {
                    ArtifactSide::Both
                } else {
                    ArtifactSide::Server
                },
            },
        )
    }
}

/// Some requirement of `values` has artifact id `id`.
pub open spec fn has_artifact_id(values: Seq<RequirementView>, id: Seq<char>) -> bool {
    exists|j: int| 0 <= j < values.len() && (#[trigger] values[j]).artifact_id == id
}

/// The requirements of the JARs in the order given, or the first error met:
/// a JAR that cannot be a requirement, or a mod id that an earlier JAR
/// already gave.
pub open spec fn collect_requirements(
    jars: Seq<InstalledView>,
) -> Result<Seq<RequirementView>, (RequirementErrorKind, Seq<char>)>
    decreases jars.len(),
{
    if jars.len() == 0 {
        Ok(Seq::empty())
    } else {
        match collect_requirements(jars.drop_last()) {
            Err(e) => Err(e),
            Ok(earlier) => match requirement_of_spec(jars.last()) {
                Err(e) => Err(e),
                Ok(r) => if has_artifact_id(earlier, r.artifact_id) {
                    Err((RequirementErrorKind::DuplicateModId, r.artifact_id))
                } else {
                    Ok(earlier.push(r))
                },
            },
        }
    }
}

/// The requirements of a selection of JARs, in canonical order.
pub open spec fn requirements_from_jars_spec(
    jars: Seq<InstalledView>,
) -> Result<Seq<RequirementView>, (RequirementErrorKind, Seq<char>)> {
    match collect_requirements(jars) {
        Ok(values) => Ok(sort_by(values, requirement_le())),
        Err(e) => Err(e),
    }
}

/// The requirement that an inspected JAR stands for.
pub fn requirement_from_jar(inspected: &InstalledServerMod) -> (r: Result<ArtifactRequirement, RequirementError>)
    ensures
        match r {
            Ok(v) => requirement_of_spec(inspected@) == Ok::<RequirementView, (RequirementErrorKind, Seq<char>)>(v@),
            Err(e) => requirement_of_spec(inspected@) == Err::<RequirementView, (RequirementErrorKind, Seq<char>)>(
                (e.kind, e.mod_id@),
            ),
        },
{
    if inspected.environment == ModEnvironment::Client {
        return Err(RequirementError { kind: RequirementErrorKind::ClientOnly, mod_id: inspected.mod_id.clone() });
    }
    if is_managed_component(inspected.mod_id.as_str()) {
        return Err(
            RequirementError { kind: RequirementErrorKind::ManagedComponent, mod_id: inspected.mod_id.clone() },
        );
    }
    let side = if inspected.environment == ModEnvironment::Universal {
        ArtifactSide::Both
    } else {
        ArtifactSide::Server
    };
    Ok(
        ArtifactRequirement {
            artifact_id: inspected.mod_id.clone(),
            version: inspected.version.clone(),
            artifact_hash: inspected.artifact_hash.clone(),
            side,
        },
    )
}

fn find_artifact_id(values: &Vec<ArtifactRequirement>, id: &String) -> (r: bool)
    ensures
        r == has_artifact_id(requirements_view(values@), id@),
{
    let ghost all = requirements_view(values@);
    let mut i: usize = 0;
    while i < values.len()
        invariant
            i <= all.len(),
            all == requirements_view(values@),
            forall|j: int| 0 <= j < i ==> (#[trigger] all[j]).artifact_id != id@,
        decreases all.len() - i,
    {
        assert(all[i as int] == values@[i as int]@);
        if values[i].artifact_id == *id {
            return true;
        }
        i = i + 1;
    }
    false
}

/// The server-mod requirements of a selection of inspected JARs, in
/// canonical order; fails on the first JAR that cannot be one or that
/// repeats a mod id.
pub fn requirements_from_jars(jars: &[InstalledServerMod]) -> (r: Result<Vec<ArtifactRequirement>, RequirementError>)
    ensures
        match r {
            Ok(v) => requirements_from_jars_spec(installed_view(jars@)) == Ok::<
                Seq<RequirementView>,
                (RequirementErrorKind, Seq<char>),
            >(requirements_view(v@)),
            Err(e) => requirements_from_jars_spec(installed_view(jars@)) == Err::<
                Seq<RequirementView>,
                (RequirementErrorKind, Seq<char>),
            >((e.kind, e.mod_id@)),
        },
{
    let ghost all = installed_view(jars@);
    let mut chosen: Vec<ArtifactRequirement> = Vec::new();
    let mut i: usize = 0;
    assert(all.subrange(0, 0) =~= Seq::<InstalledView>::empty());
    assert(requirements_view(chosen@) =~= Seq::<RequirementView>::empty());
    while i < jars.len()
        invariant
            i <= all.len(),
            all == installed_view(jars@),
            collect_requirements(all.subrange(0, i as int)) == Ok::<
                Seq<RequirementView>,
                (RequirementErrorKind, Seq<char>),
            >(requirements_view(chosen@)),
        decreases all.len() - i,
    {
        proof {
            assert(all.subrange(0, i + 1).drop_last() =~= all.subrange(0, i as int));
            assert(all.subrange(0, i + 1).last() == all[i as int]);
            assert(all[i as int] == jars@[i as int]@);
        }
        let requirement = match requirement_from_jar(&jars[i]) {
            Ok(v) => v,
            Err(e) => {
                proof {
                    lemma_collect_error_stays(all, i + 1);
                }
                return Err(e);
            },
        };
        if find_artifact_id(&chosen, &requirement.artifact_id) {
            let e = RequirementError {
                kind: RequirementErrorKind::DuplicateModId,
                mod_id: requirement.artifact_id.clone(),
            };
            proof {
                lemma_collect_error_stays(all, i + 1);
            }
            return Err(e);
        }
        let ghost before = requirements_view(chosen@);
        let ghost rv = requirement@;
        chosen.push(requirement);
        assert(requirements_view(chosen@) =~= before.push(rv));
        i = i + 1;
    }
    assert(all.subrange(0, all.len() as int) =~= all);
    let ghost unsorted = requirements_view(chosen@);
    let mut sorted: Vec<ArtifactRequirement> = Vec::new();
    let mut k: usize = 0;
    while k < chosen.len()
        invariant
            k <= unsorted.len(),
            unsorted == requirements_view(chosen@),
            requirements_view(sorted@) == sort_by(unsorted.subrange(0, k as int), requirement_le()),
        decreases unsorted.len() - k,
    {
        proof {
            assert(unsorted.subrange(0, k + 1).drop_last() =~= unsorted.subrange(0, k as int));
            assert(unsorted.subrange(0, k + 1).last() == unsorted[k as int]);
            assert(unsorted[k as int] == chosen@[k as int]@);
        }
        let copy = clone_requirement(&chosen[k]);
        insert_requirement(&mut sorted, copy);
        k = k + 1;
    }
    assert(unsorted.subrange(0, unsorted.len() as int) =~= unsorted);
    Ok(sorted)
}

/// Once collecting the first `n` JARs has failed, collecting all of them
/// fails with the same error.
proof fn lemma_collect_error_stays(jars: Seq<InstalledView>, n: int)
    requires
        0 <= n <= jars.len(),
        collect_requirements(jars.subrange(0, n)) is Err,
    ensures
        collect_requirements(jars) == collect_requirements(jars.subrange(0, n)),
    decreases jars.len() - n,
{
    if n < jars.len() {
        assert(jars.subrange(0, n + 1).drop_last() =~= jars.subrange(0, n));
        lemma_collect_error_stays(jars, n + 1);
    } else {
        assert(jars.subrange(0, n) =~= jars);
    }
}

/// Lexicographic order chains through `<=` and `<`.
pub proof fn lemma_lex_chain(x: Seq<char>, y: Seq<char>, z: Seq<char>)
    ensures
        lex_le(x, y) && lex_le(y, z) ==> lex_le(x, z),
        lex_lt(x, y) && lex_le(y, z) ==> lex_lt(x, z),
        lex_le(x, y) && lex_lt(y, z) ==> lex_lt(x, z),
{
    if lex_le(x, y) && lex_le(y, z) {
        lemma_lex_transitive(x, y, z);
        if x == z {
            lemma_lex_antisymmetric(x, y);
        }
    }
}

proof fn lemma_requirement_le_total_preorder()
    ensures
        total_preorder(requirement_le()),
{
    assert forall|a: RequirementView, b: RequirementView|
        #[trigger] requirement_le()(a, b) || requirement_le()(b, a) by {
        lemma_lex_total(a.artifact_id, b.artifact_id);
        lemma_lex_total(a.version, b.version);
        lemma_lex_total(a.artifact_hash, b.artifact_hash);
    }
    assert forall|a: RequirementView, b: RequirementView, c: RequirementView|
        #[trigger] requirement_le()(a, b) && #[trigger] requirement_le()(b, c) implies requirement_le()(a, c) by {
        lemma_lex_chain(a.artifact_id, b.artifact_id, c.artifact_id);
        lemma_lex_chain(a.version, b.version, c.version);
        lemma_lex_chain(a.artifact_hash, b.artifact_hash, c.artifact_hash);
    }
}

/// No two requirements name the same mod.
pub open spec fn ids_distinct(values: Seq<RequirementView>) -> bool {
    forall|i: int, j: int|
        0 <= i < j < values.len() ==> (#[trigger] values[i]).artifact_id != (#[trigger] values[j]).artifact_id
}

proof fn lemma_collect_ok(jars: Seq<InstalledView>)
    ensures
        collect_requirements(jars) matches Ok(values) ==> {
            &&& values.len() == jars.len()
            &&& forall|i: int| 0 <= i < jars.len() ==> requirement_of_spec(#[trigger] jars[i]) == Ok::<
                RequirementView,
                (RequirementErrorKind, Seq<char>),
            >(values[i])
            &&& ids_distinct(values)
        },
    decreases jars.len(),
{
    if jars.len() > 0 {
        let front = jars.drop_last();
        lemma_collect_ok(front);
        if let Ok(values) = collect_requirements(jars) {
            let earlier = collect_requirements(front)->Ok_0;
            assert(values == earlier.push(requirement_of_spec(jars.last())->Ok_0));
            assert forall|i: int| 0 <= i < jars.len() implies requirement_of_spec(#[trigger] jars[i]) == Ok::<
                RequirementView,
                (RequirementErrorKind, Seq<char>),
            >(values[i]) by {
                if i < jars.len() - 1 {
                    assert(front[i] == jars[i]);
                }
            }
            assert forall|i: int, j: int| 0 <= i < j < values.len() implies (#[trigger] values[i]).artifact_id
                != (#[trigger] values[j]).artifact_id by {
                if j == values.len() - 1 {
                    assert(values[i] == earlier[i]);
                    if values[i].artifact_id == values[j].artifact_id {
                        assert(has_artifact_id(earlier, values[j].artifact_id));
                    }
                } else {
                    assert(values[i] == earlier[i] && values[j] == earlier[j]);
                }
            }
        }
    }
}

proof fn lemma_sort_keeps_ids_distinct(s: Seq<RequirementView>)
    requires
        ids_distinct(s),
    ensures
        ids_distinct(sort_by(s, requirement_le())),
    decreases s.len(),
{
    broadcast use vstd::seq_lib::group_to_multiset_ensures;
    if s.len() > 0 {
        let front = s.drop_last();
        let x = s.last();
        assert forall|i: int, j: int| 0 <= i < j < front.len() implies (#[trigger] front[i]).artifact_id
            != (#[trigger] front[j]).artifact_id by {
            assert(front[i] == s[i] && front[j] == s[j]);
        }
        lemma_sort_keeps_ids_distinct(front);
        let t = sort_by(front, requirement_le());
        lemma_sort_by_multiset(front, requirement_le());
        assert forall|m: int| 0 <= m < t.len() implies (#[trigger] t[m]).artifact_id != x.artifact_id by {
            assert(t.contains(t[m]));
            assert(t.to_multiset().count(t[m]) > 0);
            assert(front.to_multiset().count(t[m]) > 0);
            assert(front.contains(t[m]));
            let q = choose|q: int| 0 <= q < front.len() && front[q] == t[m];
            assert(s[q] == t[m]);
            assert(s[s.len() - 1] == x);
        }
        lemma_insert_by_shape(t, x, requirement_le());
        let k = choose|k: int|
            0 <= k <= t.len() && insert_by(t, x, requirement_le()) == t.subrange(0, k).push(x) + t.subrange(
                k,
                t.len() as int,
            );
        let r = insert_by(t, x, requirement_le());
        assert(r == sort_by(s, requirement_le()));
        assert forall|i: int, j: int| 0 <= i < j < r.len() implies (#[trigger] r[i]).artifact_id
            != (#[trigger] r[j]).artifact_id by {
            if i < k {
                assert(r[i] == t[i]);
            } else if i > k {
                assert(r[i] == t[i - 1]);
            }
            if j < k {
                assert(r[j] == t[j]);
            } else if j > k {
                assert(r[j] == t[j - 1]);
            }
        }
    }
}

/// The requirements made from a selection of JARs are sorted by artifact
/// id, version and hash, name each mod once, and are exactly the JARs' own
/// requirements, each once.
pub proof fn lemma_jar_requirements_are_sorted_and_distinct(jars: Seq<InstalledView>)
    requires
        requirements_from_jars_spec(jars) is Ok,
    ensures
        ({
            let values = requirements_from_jars_spec(jars)->Ok_0;
            &&& values.len() == jars.len()
            &&& sorted_by(values, requirement_le())
            &&& ids_distinct(values)
            &&& forall|i: int| 0 <= i < jars.len() ==> (#[trigger] requirement_of_spec(jars[i])) is Ok
            &&& values.to_multiset() == Seq::new(jars.len(), |i: int| requirement_of_spec(jars[i])->Ok_0).to_multiset()
        }),
{
    broadcast use vstd::seq_lib::group_to_multiset_ensures;
    lemma_collect_ok(jars);
    let collected = collect_requirements(jars)->Ok_0;
    lemma_requirement_le_total_preorder();
    lemma_sort_by_sorted(collected, requirement_le());
    lemma_sort_by_multiset(collected, requirement_le());
    lemma_sort_keeps_ids_distinct(collected);
    let values = sort_by(collected, requirement_le());
    assert(values.to_multiset().len() == collected.to_multiset().len());
    assert(values.len() == jars.len());
    assert(collected =~= Seq::new(jars.len(), |i: int| requirement_of_spec(jars[i])->Ok_0));
}

/// Two JARs of one mod id never make a set of requirements.
pub proof fn lemma_repeated_mod_id_is_refused(jars: Seq<InstalledView>, i: int, j: int)
    requires
        0 <= i < j < jars.len(),
        jars[i].mod_id == jars[j].mod_id,
    ensures
        requirements_from_jars_spec(jars) is Err,
{
    lemma_collect_ok(jars);
    if let Ok(values) = collect_requirements(jars) {
        assert(requirement_of_spec(jars[i]) == Ok::<RequirementView, (RequirementErrorKind, Seq<char>)>(values[i]));
        assert(requirement_of_spec(jars[j]) == Ok::<RequirementView, (RequirementErrorKind, Seq<char>)>(values[j]));
        assert(values[i].artifact_id != values[j].artifact_id);
    }
}

proof fn lemma_collect_err_kind(jars: Seq<InstalledView>)
    ensures
        collect_requirements(jars) is Err ==> collect_requirements(jars)->Err_0.0
            == RequirementErrorKind::DuplicateModId || exists|k: int|
            0 <= k < jars.len() && #[trigger] requirement_of_spec(jars[k]) is Err,
    decreases jars.len(),
{
    if jars.len() > 0 {
        let front = jars.drop_last();
        lemma_collect_err_kind(front);
        if collect_requirements(front) is Err && collect_requirements(front)->Err_0.0
            != RequirementErrorKind::DuplicateModId {
            let k = choose|k: int| 0 <= k < front.len() && #[trigger] requirement_of_spec(front[k]) is Err;
            assert(front[k] == jars[k]);
        }
        if requirement_of_spec(jars.last()) is Err {
            assert(jars[jars.len() - 1] == jars.last());
        }
    }
}

proof fn lemma_collect_prefix_err(jars: Seq<InstalledView>, n: int)
    requires
        0 <= n <= jars.len(),
        collect_requirements(jars.take(n)) is Err,
    ensures
        collect_requirements(jars) == collect_requirements(jars.take(n)),
    decreases jars.len(),
{
    if n == jars.len() {
        assert(jars.take(n) =~= jars);
    } else {
        assert(jars.drop_last().take(n) =~= jars.take(n));
        lemma_collect_prefix_err(jars.drop_last(), n);
    }
}

/// Where every JAR up to the second of two JARs of one mod id could be a
/// requirement on its own, the selection is refused as a duplicate mod id.
pub proof fn lemma_repeated_mod_id_is_duplicate(jars: Seq<InstalledView>, i: int, j: int)
    requires
        0 <= i < j < jars.len(),
        jars[i].mod_id == jars[j].mod_id,
        forall|k: int| 0 <= k <= j ==> #[trigger] requirement_of_spec(jars[k]) is Ok,
    ensures
        requirements_from_jars_spec(jars) is Err,
        requirements_from_jars_spec(jars)->Err_0.0 == RequirementErrorKind::DuplicateModId,
{
    let front = jars.take(j);
    let p = jars.take(j + 1);
    assert(p.drop_last() =~= front);
    assert(p.last() == jars[j]);
    assert(requirement_of_spec(jars[j]) is Ok);
    lemma_collect_err_kind(front);
    lemma_collect_ok(front);
    if collect_requirements(front) is Err {
        if collect_requirements(front)->Err_0.0 != RequirementErrorKind::DuplicateModId {
            let k = choose|k: int| 0 <= k < front.len() && #[trigger] requirement_of_spec(front[k]) is Err;
            assert(front[k] == jars[k]);
            assert(requirement_of_spec(jars[k]) is Ok);
        }
    } else {
        let earlier = collect_requirements(front)->Ok_0;
        assert(front[i] == jars[i]);
        assert(requirement_of_spec(front[i]) == Ok::<RequirementView, (RequirementErrorKind, Seq<char>)>(
            earlier[i],
        ));
        assert(earlier[i].artifact_id == jars[j].mod_id);
        assert(has_artifact_id(earlier, requirement_of_spec(jars[j])->Ok_0.artifact_id));
    }
    lemma_collect_prefix_err(jars, j + 1);
}

// ---------------------------------------------------------------------------
// Adding, removing and staging a world's user server mods
// ---------------------------------------------------------------------------

/// Where a world's user server mods live, below the data root's worlds
/// directory: one path component per element.
pub open spec fn mods_dir_spec(world_id: Seq<u8>) -> Seq<Seq<char>> {
    seq![crate::text::hex_spec(world_id), "runtime-profile"@, "mods"@]
}

/// The mods directory of a world, below the worlds directory.
pub fn mods_dir(world_id: &[u8]) -> (r: Vec<String>)
    ensures
        texts_of(r@) == mods_dir_spec(world_id@),
{
    let r = vec![crate::text::hex_string(world_id), String::from_str("runtime-profile"), String::from_str("mods")];
    assert(texts_of(r@) =~= mods_dir_spec(world_id@));
    r
}

/// Why a JAR cannot be added to a world's mods directory, with the texts
/// that the message names.
pub enum LocalModFault {
    ClientOnly(Seq<char>),
    ManagedComponent(Seq<char>),
    NotInProfile(Seq<char>),
    VersionMismatch(Seq<char>, Seq<char>, Seq<char>),
    HashMismatch(Seq<char>),
}

#[derive(Debug)]
pub enum LocalModError {
    ClientOnly(String),
    ManagedComponent(String),
    NotInProfile(String),
    /// The mod id, the version the world requires and the selected JAR's version.
    VersionMismatch(String, String, String),
    HashMismatch(String),
}

impl View for LocalModError {
    type V = LocalModFault;

    open spec fn view(&self) -> LocalModFault {
        match self {
            LocalModError::ClientOnly(id) => LocalModFault::ClientOnly(id@),
            LocalModError::ManagedComponent(id) => LocalModFault::ManagedComponent(id@),
            LocalModError::NotInProfile(id) => LocalModFault::NotInProfile(id@),
            LocalModError::VersionMismatch(id, required, selected) => LocalModFault::VersionMismatch(
                id@,
                required@,
                selected@,
            ),
            LocalModError::HashMismatch(id) => LocalModFault::HashMismatch(id@),
        }
    }
}

pub open spec fn local_mod_message(f: LocalModFault) -> Seq<char> {
    match f {
        LocalModFault::ClientOnly(id) => "Fabric mod "@ + id + " is client-only"@,
        LocalModFault::ManagedComponent(id) => id
            + " is managed by the runtime installer and cannot be added as a user server mod"@,
        LocalModFault::NotInProfile(id) => id
            + " is not part of this world's canonical server-mod profile; protocol v1 profiles cannot be changed in place"@,
        LocalModFault::VersionMismatch(id, required, selected) => id + " version mismatch: world requires "@ + required
            + ", selected JAR is "@ + selected,
        LocalModFault::HashMismatch(id) => id + " artifact hash does not match the world's canonical requirement"@,
    }
}

impl LocalModError {
    /// The error's text.
    pub fn message(&self) -> (r: String)
        ensures
            r@ == local_mod_message(self@),
    {
        match self {
            LocalModError::ClientOnly(id) => {
                let mut out = String::from_str("Fabric mod ");
                out.append(id.as_str());
                out.append(" is client-only");
                out
            },
            LocalModError::ManagedComponent(id) => joined(
                id,
                " is managed by the runtime installer and cannot be added as a user server mod",
            ),
            LocalModError::NotInProfile(id) => joined(
                id,
                " is not part of this world's canonical server-mod profile; protocol v1 profiles cannot be changed in place",
            ),
            LocalModError::VersionMismatch(id, required, selected) => {
                let mut out = joined(id, " version mismatch: world requires ");
                out.append(required.as_str());
                out.append(", selected JAR is ");
                out.append(selected.as_str());
                out
            },
            LocalModError::HashMismatch(id) => joined(
                id,
                " artifact hash does not match the world's canonical requirement",
            ),
        }
    }
}

/// The first requirement of `values` with artifact id `id`.
pub open spec fn first_with_id(values: Seq<RequirementView>, id: Seq<char>) -> Option<RequirementView>
    decreases values.len(),
{
    if values.len() == 0 {
        None
    } else if values[0].artifact_id == id {
        Some(values[0])
    } else {
        first_with_id(values.drop_first(), id)
    }
}

/// Whether an inspected JAR may be added to a world's mods directory, and
/// the file name it is stored under. It must be a server-side user mod that
/// the world's canonical profile names (the first canonical entry with its
/// id, which is a user entry since the id is not a managed one), at the
/// required version and with the required hash.
pub open spec fn local_mod_spec(m: InstalledView, canonical: Seq<RequirementView>) -> Result<Seq<char>, LocalModFault> {
    if m.environment == ModEnvironment::Client {
        Err(LocalModFault::ClientOnly(m.mod_id))
    } else if managed_spec(m.mod_id) {
        Err(LocalModFault::ManagedComponent(m.mod_id))
    } else {
        match first_with_id(canonical, m.mod_id) {
            None => Err(LocalModFault::NotInProfile(m.mod_id)),
            Some(expected) => if expected.version != m.version {
                Err(LocalModFault::VersionMismatch(expected.artifact_id, expected.version, m.version))
            } else if expected.artifact_hash != m.artifact_hash {
                Err(LocalModFault::HashMismatch(expected.artifact_id))
            } else {
                Ok(canonical_file_name_spec(m.mod_id, m.version, m.artifact_hash))
            },
        }
    }
}

/// A JAR is added exactly when it is a server-side user mod that the
/// profile names at its version and hash, and then always under its
/// canonical file name; adding the same JAR again gives the same name.
pub proof fn lemma_local_mod_added_exactly(m: InstalledView, canonical: Seq<RequirementView>)
    ensures
        local_mod_spec(m, canonical) is Ok <==> {
            &&& m.environment != ModEnvironment::Client
            &&& !managed_spec(m.mod_id)
            &&& first_with_id(canonical, m.mod_id) is Some
            &&& first_with_id(canonical, m.mod_id)->Some_0.version == m.version
            &&& first_with_id(canonical, m.mod_id)->Some_0.artifact_hash == m.artifact_hash
        },
        local_mod_spec(m, canonical) is Ok ==> local_mod_spec(m, canonical)->Ok_0 == canonical_file_name_spec(
            m.mod_id,
            m.version,
            m.artifact_hash,
        ),
{
}

/// Checks that an inspected JAR may be added to a world whose profile is
/// `manifest`, and gives the file name to store it under.
pub fn check_local_mod(inspected: &InstalledServerMod, manifest: &RuntimeCompatibilityManifest) -> (r: Result<
    String,
    LocalModError,
>)
    requires
        inspected.artifact_hash@.len() >= 12,
    ensures
        match r {
            Ok(name) => local_mod_spec(inspected@, canonical_requirements(requirements_view(manifest.required_server_mods@)))
                == Ok::<Seq<char>, LocalModFault>(name@),
            Err(e) => local_mod_spec(inspected@, canonical_requirements(requirements_view(manifest.required_server_mods@)))
                == Err::<Seq<char>, LocalModFault>(e@),
        },
{
    if inspected.environment == ModEnvironment::Client {
        return Err(LocalModError::ClientOnly(inspected.mod_id.clone()));
    }
    if is_managed_component(inspected.mod_id.as_str()) {
        return Err(LocalModError::ManagedComponent(inspected.mod_id.clone()));
    }
    let canonical = canonical_physical_requirements(manifest);
    let ghost all = requirements_view(canonical@);
    let mut i: usize = 0;
    assert(all.subrange(0, all.len() as int) =~= all);
    while i < canonical.len()
        invariant
            i <= all.len(),
            all == requirements_view(canonical@),
            all == canonical_requirements(requirements_view(manifest.required_server_mods@)),
            inspected.artifact_hash@.len() >= 12,
            inspected.environment != ModEnvironment::Client,
            !managed_spec(inspected.mod_id@),
            first_with_id(all, inspected.mod_id@) == first_with_id(all.subrange(i as int, all.len() as int), inspected.mod_id@),
        decreases all.len() - i,
    {
        let expected = &canonical[i];
        proof {
            let rest = all.subrange(i as int, all.len() as int);
            assert(rest[0] == all[i as int]);
            assert(rest.drop_first() =~= all.subrange(i + 1, all.len() as int));
            assert(all[i as int] == expected@);
        }
        if expected.artifact_id == inspected.mod_id {
            if !(expected.version == inspected.version) {
                return Err(
                    LocalModError::VersionMismatch(
                        expected.artifact_id.clone(),
                        expected.version.clone(),
                        inspected.version.clone(),
                    ),
                );
            }
            if !(expected.artifact_hash == inspected.artifact_hash) {
                return Err(LocalModError::HashMismatch(expected.artifact_id.clone()));
            }
            return Ok(
                canonical_file_name(inspected.mod_id.as_str(), inspected.version.as_str(), inspected.artifact_hash.as_str()),
            );
        }
        i = i + 1;
    }
    Err(LocalModError::NotInProfile(inspected.mod_id.clone()))
}

/// The paths of the inspected JARs that claim `mod_id`, in the order given.
pub open spec fn claiming_paths(jars: Seq<InstalledServerMod>, mod_id: Seq<char>) -> Seq<Seq<char>>
    decreases jars.len(),
{
    if jars.len() == 0 {
        Seq::empty()
    } else {
        let earlier = claiming_paths(jars.drop_last(), mod_id);
        if jars.last().mod_id@ == mod_id {
            earlier.push(jars.last().path@)
        } else {
            earlier
        }
    }
}

/// The files to delete when removing `mod_id` from a world: every readable
/// JAR that claims it, as long as there is at most one; `None` where several
/// claim it, which must be resolved by hand.
pub fn local_mod_removals(jars: &[InstalledServerMod], mod_id: &str) -> (r: Option<Vec<String>>)
    ensures
        match r {
            Some(paths) => claiming_paths(jars@, mod_id@).len() <= 1 && texts_of(paths@) == claiming_paths(jars@, mod_id@),
            None => claiming_paths(jars@, mod_id@).len() > 1,
        },
{
    let target = mod_id.to_string();
    let mut out: Vec<String> = Vec::new();
    let mut i: usize = 0;
    while i < jars.len()
        invariant
            i <= jars@.len(),
            target@ == mod_id@,
            texts_of(out@) == claiming_paths(jars@.subrange(0, i as int), mod_id@),
        decreases jars@.len() - i,
    {
        proof {
            assert(jars@.subrange(0, i + 1).drop_last() =~= jars@.subrange(0, i as int));
            assert(jars@.subrange(0, i + 1).last() == jars@[i as int]);
        }
        if jars[i].mod_id == target {
            let ghost before = out@;
            out.push(jars[i].path.clone());
            assert(texts_of(out@) =~= texts_of(before).push(jars@[i as int].path@));
        }
        i = i + 1;
    }
    assert(jars@.subrange(0, jars@.len() as int) =~= jars@);
    if out.len() > 1 {
        return None;
    }
    Some(out)
}

// ---------------------------------------------------------------------------
// The readiness of a world's mods directory
// ---------------------------------------------------------------------------

/// Where a world's mods directory stands against its profile.
#[derive(Debug)]
pub struct ServerModReadiness {
    pub world_id: String,
    pub mods_dir: String,
    pub ready: bool,
    pub required: Vec<RequiredServerMod>,
    pub installed: Vec<InstalledServerMod>,
    pub issues: Vec<ModIssue>,
}

/// Installed mods ordered by mod id, then version, then file name.
pub open spec fn installed_le() -> spec_fn(InstalledView, InstalledView) -> bool {
    |a: InstalledView, b: InstalledView|
        lex_lt(a.mod_id, b.mod_id) || (a.mod_id == b.mod_id && (lex_lt(a.version, b.version) || (a.version
            == b.version && lex_le(a.file_name, b.file_name))))
}

/// The place of an issue kind in the order the kinds are declared in.
pub open spec fn issue_rank(kind: ModIssueKind) -> int {
    match kind {
        ModIssueKind::InvalidJar => 0,
        ModIssueKind::DuplicateModId => 1,
        ModIssueKind::ConflictingVersion => 2,
        ModIssueKind::MissingRequired => 3,
        ModIssueKind::HashMismatch => 4,
        ModIssueKind::VersionMismatch => 5,
        ModIssueKind::UnexpectedMod => 6,
        ModIssueKind::ClientOnly => 7,
    }
}

/// Optional texts ordered with the absent one first.
pub open spec fn opt_le(a: Option<Seq<char>>, b: Option<Seq<char>>) -> bool {
    match (a, b) {
        (None, _) => true,
        (Some(_), None) => false,
        (Some(x), Some(y)) => lex_le(x, y),
    }
}

/// Issues ordered by kind, then mod id, then file name.
pub open spec fn issue_le() -> spec_fn(IssueView, IssueView) -> bool {
    |a: IssueView, b: IssueView|
        issue_rank(a.kind) < issue_rank(b.kind) || (a.kind == b.kind && ((opt_le(a.mod_id, b.mod_id) && a.mod_id
            != b.mod_id) || (a.mod_id == b.mod_id && opt_le(a.file_name, b.file_name))))
}

/// The readiness of a mods directory: its readable JARs in order, the
/// world's required mods, and every issue (the unreadable JARs' and the
/// inventory's) in order; ready exactly when there is no issue.
pub open spec fn readiness_parts(
    manifest: Seq<RequirementView>,
    installed: Seq<InstalledView>,
    invalid: Seq<IssueView>,
) -> (Seq<RequiredView>, Seq<InstalledView>, Seq<IssueView>) {
    let sorted = sort_by(installed, installed_le());
    (
        required_list(canonical_requirements(manifest)),
        sorted,
        sort_by(invalid + inventory_issues(manifest, sorted), issue_le()),
    )
}

fn issue_rank_exec(kind: ModIssueKind) -> (r: u8)
    ensures
        r == issue_rank(kind),
{
    match kind {
        ModIssueKind::InvalidJar => 0,
        ModIssueKind::DuplicateModId => 1,
        ModIssueKind::ConflictingVersion => 2,
        ModIssueKind::MissingRequired => 3,
        ModIssueKind::HashMismatch => 4,
        ModIssueKind::VersionMismatch => 5,
        ModIssueKind::UnexpectedMod => 6,
        ModIssueKind::ClientOnly => 7,
    }
}

fn text_le_exec(a: &String, b: &String) -> (r: bool)
    ensures
        r == lex_le(a@, b@),
{
    lex_le_exec(&chars_of(a.as_str()), &chars_of(b.as_str()))
}

fn opt_eq(a: &Option<String>, b: &Option<String>) -> (r: bool)
    ensures
        r == (opt_str(*a) == opt_str(*b)),
{
    match (a, b) {
        (None, None) => true,
        (Some(x), Some(y)) => *x == *y,
        _ => false,
    }
}

fn opt_le_exec(a: &Option<String>, b: &Option<String>) -> (r: bool)
    ensures
        r == opt_le(opt_str(*a), opt_str(*b)),
{
    match (a, b) {
        (None, _) => true,
        (Some(_), None) => false,
        (Some(x), Some(y)) => text_le_exec(x, y),
    }
}

fn installed_le_exec(a: &InstalledServerMod, b: &InstalledServerMod) -> (r: bool)
    ensures
        r == (installed_le())(a@, b@),
{
    if !(a.mod_id == b.mod_id) {
        return text_le_exec(&a.mod_id, &b.mod_id);
    }
    if !(a.version == b.version) {
        return text_le_exec(&a.version, &b.version);
    }
    text_le_exec(&a.file_name, &b.file_name)
}

fn issue_le_exec(a: &ModIssue, b: &ModIssue) -> (r: bool)
    ensures
        r == (issue_le())(a@, b@),
{
    let ra = issue_rank_exec(a.kind);
    let rb = issue_rank_exec(b.kind);
    if ra != rb {
        return ra < rb;
    }
    assert(a.kind == b.kind);
    if !opt_eq(&a.mod_id, &b.mod_id) {
        return opt_le_exec(&a.mod_id, &b.mod_id);
    }
    opt_le_exec(&a.file_name, &b.file_name)
}

fn clone_installed(m: &InstalledServerMod) -> (c: InstalledServerMod)
    ensures
        c@ == m@,
        c.path@ == m.path@,
{
    InstalledServerMod {
        file_name: m.file_name.clone(),
        path: m.path.clone(),
        mod_id: m.mod_id.clone(),
        version: m.version.clone(),
        artifact_hash: m.artifact_hash.clone(),
        environment: m.environment,
        component_kind: m.component_kind,
    }
}

fn insert_installed(values: &mut Vec<InstalledServerMod>, x: InstalledServerMod)
    ensures
        installed_view(final(values)@) == insert_by(installed_view(old(values)@), x@, installed_le()),
{
    let ghost old_values = installed_view(values@);
    let ghost xv = x@;
    let mut j: usize = values.len();
    assert(old_values.subrange(0, old_values.len() as int) =~= old_values);
    assert(insert_by(old_values, xv, installed_le()) + old_values.subrange(
        old_values.len() as int,
        old_values.len() as int,
    ) =~= insert_by(old_values, xv, installed_le()));
    loop
        invariant
            j <= values@.len(),
            installed_view(values@) == old_values,
            x@ == xv,
            insert_by(old_values, xv, installed_le()) == insert_by(old_values.subrange(0, j as int), xv, installed_le())
                + old_values.subrange(j as int, old_values.len() as int),
        ensures
            j <= values@.len(),
            installed_view(values@) == old_values,
            insert_by(old_values, xv, installed_le()) == insert_by(old_values.subrange(0, j as int), xv, installed_le())
                + old_values.subrange(j as int, old_values.len() as int),
            j == 0 || (installed_le())(old_values[j - 1], xv),
        decreases j,
    {
        if j == 0 {
            break;
        }
        assert(old_values[j - 1] == values@[j - 1]@);
        if installed_le_exec(&values[j - 1], &x) {
            break;
        }
        proof {
            let pre = old_values.subrange(0, j as int);
            assert(pre.last() == old_values[j - 1]);
            assert(pre.drop_last() =~= old_values.subrange(0, j - 1));
            assert(insert_by(pre, xv, installed_le()) == insert_by(old_values.subrange(0, j - 1), xv, installed_le()).push(
                old_values[j - 1],
            ));
            assert(insert_by(old_values.subrange(0, j - 1), xv, installed_le()).push(old_values[j - 1])
                + old_values.subrange(j as int, old_values.len() as int) =~= insert_by(
                old_values.subrange(0, j - 1),
                xv,
                installed_le(),
            ) + old_values.subrange(j - 1, old_values.len() as int));
        }
        j = j - 1;
    }
    proof {
        let pre = old_values.subrange(0, j as int);
        if j > 0 {
            assert(pre.last() == old_values[j - 1]);
        }
        assert(insert_by(pre, xv, installed_le()) =~= pre.push(xv));
    }
    values.insert(j, x);
    assert(installed_view(values@) =~= old_values.subrange(0, j as int).push(xv) + old_values.subrange(
        j as int,
        old_values.len() as int,
    ));
}

fn insert_issue(values: &mut Vec<ModIssue>, x: ModIssue)
    ensures
        issues_view(final(values)@) == insert_by(issues_view(old(values)@), x@, issue_le()),
{
    let ghost old_values = issues_view(values@);
    let ghost xv = x@;
    let mut j: usize = values.len();
    assert(old_values.subrange(0, old_values.len() as int) =~= old_values);
    assert(insert_by(old_values, xv, issue_le()) + old_values.subrange(
        old_values.len() as int,
        old_values.len() as int,
    ) =~= insert_by(old_values, xv, issue_le()));
    loop
        invariant
            j <= values@.len(),
            issues_view(values@) == old_values,
            x@ == xv,
            insert_by(old_values, xv, issue_le()) == insert_by(old_values.subrange(0, j as int), xv, issue_le())
                + old_values.subrange(j as int, old_values.len() as int),
        ensures
            j <= values@.len(),
            issues_view(values@) == old_values,
            insert_by(old_values, xv, issue_le()) == insert_by(old_values.subrange(0, j as int), xv, issue_le())
                + old_values.subrange(j as int, old_values.len() as int),
            j == 0 || (issue_le())(old_values[j - 1], xv),
        decreases j,
    {
        if j == 0 {
            break;
        }
        assert(old_values[j - 1] == values@[j - 1]@);
        if issue_le_exec(&values[j - 1], &x) {
            break;
        }
        proof {
            let pre = old_values.subrange(0, j as int);
            assert(pre.last() == old_values[j - 1]);
            assert(pre.drop_last() =~= old_values.subrange(0, j - 1));
            assert(insert_by(pre, xv, issue_le()) == insert_by(old_values.subrange(0, j - 1), xv, issue_le()).push(
                old_values[j - 1],
            ));
            assert(insert_by(old_values.subrange(0, j - 1), xv, issue_le()).push(old_values[j - 1])
                + old_values.subrange(j as int, old_values.len() as int) =~= insert_by(
                old_values.subrange(0, j - 1),
                xv,
                issue_le(),
            ) + old_values.subrange(j - 1, old_values.len() as int));
        }
        j = j - 1;
    }
    proof {
        let pre = old_values.subrange(0, j as int);
        if j > 0 {
            assert(pre.last() == old_values[j - 1]);
        }
        assert(insert_by(pre, xv, issue_le()) =~= pre.push(xv));
    }
    values.insert(j, x);
    assert(issues_view(values@) =~= old_values.subrange(0, j as int).push(xv) + old_values.subrange(
        j as int,
        old_values.len() as int,
    ));
}

/// Sorts installed mods, keeping equal ones in the order given.
fn sort_installed(values: Vec<InstalledServerMod>) -> (r: Vec<InstalledServerMod>)
    ensures
        installed_view(r@) == sort_by(installed_view(values@), installed_le()),
{
    let ghost all = installed_view(values@);
    let mut sorted: Vec<InstalledServerMod> = Vec::new();
    let mut k: usize = 0;
    while k < values.len()
        invariant
            k <= all.len(),
            all == installed_view(values@),
            installed_view(sorted@) == sort_by(all.subrange(0, k as int), installed_le()),
        decreases all.len() - k,
    {
        proof {
            assert(all.subrange(0, k + 1).drop_last() =~= all.subrange(0, k as int));
            assert(all.subrange(0, k + 1).last() == all[k as int]);
            assert(all[k as int] == values@[k as int]@);
        }
        let copy = clone_installed(&values[k]);
        insert_installed(&mut sorted, copy);
        k = k + 1;
    }
    assert(all.subrange(0, all.len() as int) =~= all);
    sorted
}

fn clone_text_opt(value: &Option<String>) -> (r: Option<String>)
    ensures
        opt_str(r) == opt_str(*value),
{
    match value {
        Some(v) => Some(v.clone()),
        None => None,
    }
}

fn clone_issue(m: &ModIssue) -> (c: ModIssue)
    ensures
        c@ == m@,
{
    ModIssue {
        kind: m.kind,
        mod_id: clone_text_opt(&m.mod_id),
        file_name: clone_text_opt(&m.file_name),
        message: m.message.clone(),
    }
}

/// Sorts issues, keeping equal ones in the order given.
fn sort_issues(values: Vec<ModIssue>) -> (r: Vec<ModIssue>)
    ensures
        issues_view(r@) == sort_by(issues_view(values@), issue_le()),
{
    let ghost all = issues_view(values@);
    let mut sorted: Vec<ModIssue> = Vec::new();
    let mut k: usize = 0;
    while k < values.len()
        invariant
            k <= all.len(),
            all == issues_view(values@),
            issues_view(sorted@) == sort_by(all.subrange(0, k as int), issue_le()),
        decreases all.len() - k,
    {
        proof {
            assert(all.subrange(0, k + 1).drop_last() =~= all.subrange(0, k as int));
            assert(all.subrange(0, k + 1).last() == all[k as int]);
            assert(all[k as int] == values@[k as int]@);
        }
        let copy = clone_issue(&values[k]);
        insert_issue(&mut sorted, copy);
        k = k + 1;
    }
    assert(all.subrange(0, all.len() as int) =~= all);
    sorted
}

/// The readiness of a world's mods directory from what reading it gave: the
/// JARs that could be inspected and an issue for each that could not.
pub fn evaluate_mod_inventory(
    world_id: String,
    mods_dir: String,
    installed: Vec<InstalledServerMod>,
    invalid_jars: Vec<ModIssue>,
    manifest: &RuntimeCompatibilityManifest,
) -> (r: ServerModReadiness)
    ensures
        r.world_id@ == world_id@,
        r.mods_dir@ == mods_dir@,
        (required_view(r.required@), installed_view(r.installed@), issues_view(r.issues@)) == readiness_parts(
            requirements_view(manifest.required_server_mods@),
            installed_view(installed@),
            issues_view(invalid_jars@),
        ),
        r.ready == (r.issues@.len() == 0),
{
    let sorted = sort_installed(installed);
    let (required, mut inventory) = evaluate_inventory(manifest, sorted.as_slice());
    let mut issues = invalid_jars;
    let ghost a = issues_view(issues@);
    let ghost b = issues_view(inventory@);
    issues.append(&mut inventory);
    assert(issues_view(issues@) =~= a + b);
    let issues = sort_issues(issues);
    let ready = issues.len() == 0;
    ServerModReadiness { world_id, mods_dir, ready, required, installed: sorted, issues }
}

/// The messages of `issues`, separated by `"; "`.
pub open spec fn issue_summary(issues: Seq<IssueView>) -> Seq<char>
    decreases issues.len(),
{
    if issues.len() == 0 {
        Seq::empty()
    } else if issues.len() == 1 {
        issues[0].message
    } else {
        issue_summary(issues.drop_last()) + "; "@ + issues.last().message
    }
}

/// The world requires a user server mod with this id.
pub open spec fn requires_user_mod(required: Seq<RequiredView>, id: Seq<char>) -> bool {
    exists|j: int|
        0 <= j < required.len() && (#[trigger] required[j]).component_kind == ModComponentKind::UserServerMod
            && required[j].mod_id == id
}

/// The positions, in order, of the installed mods that are staged into the
/// runtime: user server mods that the world requires.
pub open spec fn staged_positions(installed: Seq<InstalledView>, required: Seq<RequiredView>) -> Seq<int>
    decreases installed.len(),
{
    if installed.len() == 0 {
        Seq::empty()
    } else {
        let earlier = staged_positions(installed.drop_last(), required);
        let m = installed.last();
        if m.component_kind == ModComponentKind::UserServerMod && requires_user_mod(required, m.mod_id) {
            earlier.push(installed.len() - 1)
        } else {
            earlier
        }
    }
}

fn requires_user_mod_exec(required: &Vec<RequiredServerMod>, id: &String) -> (r: bool)
    ensures
        r == requires_user_mod(required_view(required@), id@),
{
    let ghost all = required_view(required@);
    let mut i: usize = 0;
    while i < required.len()
        invariant
            i <= all.len(),
            all == required_view(required@),
            forall|j: int|
                0 <= j < i ==> !((#[trigger] all[j]).component_kind == ModComponentKind::UserServerMod && all[j].mod_id
                    == id@),
        decreases all.len() - i,
    {
        assert(all[i as int] == required@[i as int]@);
        if required[i].component_kind == ModComponentKind::UserServerMod && required[i].mod_id == *id {
            return true;
        }
        i = i + 1;
    }
    false
}

/// The mods to copy into a runtime's mods directory: where the directory is
/// ready, the installed user server mods that the world requires, in order;
/// else the text of the failure, naming every issue.
pub fn staged_user_mods(readiness: &ServerModReadiness) -> (r: Result<Vec<InstalledServerMod>, String>)
    ensures
        !readiness.ready ==> (r matches Err(text) && text@ == "server mod runtime profile is not ready: "@
            + issue_summary(issues_view(readiness.issues@))),
        readiness.ready ==> (r matches Ok(v) && ({
            let positions = staged_positions(
                installed_view(readiness.installed@),
                required_view(readiness.required@),
            );
            &&& v@.len() == positions.len()
            &&& forall|k: int|
                0 <= k < positions.len() ==> (#[trigger] v@[k])@ == readiness.installed@[positions[k]]@
                    && v@[k].path@ == readiness.installed@[positions[k]].path@
        })),
{
    if !readiness.ready {
        let ghost all = issues_view(readiness.issues@);
        let mut text = String::from_str("server mod runtime profile is not ready: ");
        let ghost head = text@;
        let mut i: usize = 0;
        while i < readiness.issues.len()
            invariant
                i <= all.len(),
                all == issues_view(readiness.issues@),
                text@ == head + issue_summary(all.subrange(0, i as int)),
            decreases all.len() - i,
        {
            proof {
                let p = all.subrange(0, i + 1);
                assert(p.drop_last() =~= all.subrange(0, i as int));
                assert(p.last() == all[i as int]);
                assert(all[i as int] == readiness.issues@[i as int]@);
                if i == 0 {
                    assert(p[0] == all[0]);
                    assert(all.subrange(0, 0) =~= Seq::<IssueView>::empty());
                }
            }
            if i > 0 {
                text.append("; ");
            }
            text.append(readiness.issues[i].message.as_str());
            proof {
                if i == 0 {
                    assert(head + Seq::<char>::empty() + all[0].message =~= head + issue_summary(all.subrange(0, 1)));
                } else {
                    assert(head + issue_summary(all.subrange(0, i as int)) + "; "@ + all[i as int].message =~= head
                        + issue_summary(all.subrange(0, i + 1)));
                }
            }
            i = i + 1;
        }
        assert(all.subrange(0, all.len() as int) =~= all);
        return Err(text);
    }
    let ghost all = installed_view(readiness.installed@);
    let ghost reqs = required_view(readiness.required@);
    let mut out: Vec<InstalledServerMod> = Vec::new();
    let mut i: usize = 0;
    while i < readiness.installed.len()
        invariant
            i <= all.len(),
            all == installed_view(readiness.installed@),
            reqs == required_view(readiness.required@),
            out@.len() == staged_positions(all.subrange(0, i as int), reqs).len(),
            forall|k: int|
                0 <= k < out@.len() ==> (#[trigger] out@[k])@ == readiness.installed@[staged_positions(
                    all.subrange(0, i as int),
                    reqs,
                )[k]]@ && out@[k].path@ == readiness.installed@[staged_positions(all.subrange(0, i as int), reqs)[k]].path@,
        decreases all.len() - i,
    {
        let m = &readiness.installed[i];
        proof {
            let p = all.subrange(0, i + 1);
            assert(p.drop_last() =~= all.subrange(0, i as int));
            assert(p.last() == all[i as int]);
            assert(all[i as int] == m@);
        }
        if m.component_kind == ModComponentKind::UserServerMod && requires_user_mod_exec(&readiness.required, &m.mod_id) {
            let copy = clone_installed(m);
            out.push(copy);
        }
        i = i + 1;
    }
    assert(all.subrange(0, all.len() as int) =~= all);
    Ok(out)
}

// ---------------------------------------------------------------------------
// Laws of the inventory
// ---------------------------------------------------------------------------

proof fn lemma_physical_entries_contains(manifest: Seq<RequirementView>, r: RequirementView)
    requires
        manifest.contains(r),
        !is_legacy_entry(r),
    ensures
        physical_entries(manifest).contains(r),
    decreases manifest.len(),
{
    if manifest.last() == r {
        assert(physical_entries(manifest).last() == r);
    } else {
        let k = choose|k: int| 0 <= k < manifest.len() && manifest[k] == r;
        assert(manifest.drop_last()[k] == r);
        lemma_physical_entries_contains(manifest.drop_last(), r);
        let earlier = physical_entries(manifest.drop_last());
        let j = choose|j: int| 0 <= j < earlier.len() && earlier[j] == r;
        if !is_legacy_entry(manifest.last()) {
            assert(physical_entries(manifest)[j] == r);
        }
    }
}

proof fn lemma_canonical_contains(manifest: Seq<RequirementView>, r: RequirementView)
    requires
        manifest.contains(r),
        !is_legacy_entry(r),
    ensures
        canonical_requirements(manifest).contains(r),
{
    broadcast use vstd::seq_lib::group_to_multiset_ensures;
    lemma_physical_entries_contains(manifest, r);
    lemma_sort_by_multiset(physical_entries(manifest), requirement_le());
    assert(physical_entries(manifest).to_multiset().count(r) > 0);
}

proof fn lemma_no_client_issues(installed: Seq<InstalledView>)
    requires
        forall|i: int| 0 <= i < installed.len() ==> (#[trigger] installed[i]).environment != ModEnvironment::Client,
    ensures
        client_only_issues(installed) == Seq::<IssueView>::empty(),
    decreases installed.len(),
{
    if installed.len() > 0 {
        assert(installed.last() == installed[installed.len() - 1]);
        lemma_no_client_issues(installed.drop_last());
    }
}

proof fn lemma_no_duplicate_issues(installed: Seq<InstalledView>, ids: Seq<Seq<char>>)
    requires
        forall|id: Seq<char>| #[trigger] claim_count(installed, id) <= 1,
    ensures
        duplicate_issues(installed, ids) == Seq::<IssueView>::empty(),
    decreases ids.len(),
{
    if ids.len() > 0 {
        assert(claim_count(installed, ids.last()) <= 1);
        lemma_no_duplicate_issues(installed, ids.drop_last());
    }
}

proof fn lemma_no_requirement_issues(required: Seq<RequirementView>, installed: Seq<InstalledView>)
    requires
        forall|k: int|
            0 <= k < required.len() && is_user_requirement(#[trigger] required[k]) ==> exists|i: int|
                0 <= i < installed.len() && (#[trigger] installed[i]).mod_id == required[k].artifact_id
                    && installed[i].artifact_hash == required[k].artifact_hash,
    ensures
        requirement_issues(required, installed) == Seq::<IssueView>::empty(),
    decreases required.len(),
{
    if required.len() > 0 {
        let r = required.last();
        assert(r == required[required.len() - 1]);
        assert forall|k: int|
            0 <= k < required.drop_last().len() && is_user_requirement(#[trigger] required.drop_last()[k]) implies exists|i: int|
                0 <= i < installed.len() && (#[trigger] installed[i]).mod_id == required.drop_last()[k].artifact_id
                    && installed[i].artifact_hash == required.drop_last()[k].artifact_hash by {
            assert(required.drop_last()[k] == required[k]);
        }
        lemma_no_requirement_issues(required.drop_last(), installed);
        if is_user_requirement(r) {
            let i = choose|i: int|
                0 <= i < installed.len() && (#[trigger] installed[i]).mod_id == r.artifact_id && installed[i].artifact_hash
                    == r.artifact_hash;
            assert(exists|i: int| 0 <= i < installed.len() && (#[trigger] installed[i]).mod_id == r.artifact_id);
            assert(requirement_issue(r, installed) =~= Seq::<IssueView>::empty());
            assert(Seq::<IssueView>::empty() + Seq::<IssueView>::empty() =~= Seq::<IssueView>::empty());
        }
    }
}

proof fn lemma_no_unexpected_issues(installed: Seq<InstalledView>, required: Seq<RequirementView>)
    requires
        forall|i: int|
            0 <= i < installed.len() && (#[trigger] installed[i]).component_kind == ModComponentKind::UserServerMod
                ==> required_user_id(required, installed[i].mod_id),
    ensures
        unexpected_issues(installed, required) == Seq::<IssueView>::empty(),
    decreases installed.len(),
{
    if installed.len() > 0 {
        assert(installed.last() == installed[installed.len() - 1]);
        lemma_no_unexpected_issues(installed.drop_last(), required);
    }
}

/// An inventory that holds, once each and for the server, exactly the user
/// server mods that the profile requires, byte for byte, has no issue.
pub proof fn lemma_exact_inventory_has_no_issues(manifest: Seq<RequirementView>, installed: Seq<InstalledView>)
    requires
        forall|i: int| 0 <= i < installed.len() ==> (#[trigger] installed[i]).environment != ModEnvironment::Client,
        forall|id: Seq<char>| #[trigger] claim_count(installed, id) <= 1,
        forall|i: int|
            0 <= i < installed.len() && (#[trigger] installed[i]).component_kind == ModComponentKind::UserServerMod
                ==> exists|k: int|
                0 <= k < manifest.len() && (#[trigger] manifest[k]).artifact_id == installed[i].mod_id
                    && is_user_requirement(manifest[k]) && !is_legacy_entry(manifest[k]),
        forall|k: int|
            0 <= k < manifest.len() && is_user_requirement(#[trigger] manifest[k]) && !is_legacy_entry(manifest[k])
                ==> exists|i: int|
                0 <= i < installed.len() && (#[trigger] installed[i]).mod_id == manifest[k].artifact_id
                    && installed[i].artifact_hash == manifest[k].artifact_hash,
    ensures
        inventory_issues(manifest, installed) == Seq::<IssueView>::empty(),
{
    broadcast use vstd::seq_lib::group_to_multiset_ensures;
    let required = canonical_requirements(manifest);
    lemma_sort_by_multiset(physical_entries(manifest), requirement_le());
    lemma_no_client_issues(installed);
    lemma_no_duplicate_issues(installed, claimed_ids(installed));
    assert forall|k: int|
        0 <= k < required.len() && is_user_requirement(#[trigger] required[k]) implies exists|i: int|
            0 <= i < installed.len() && (#[trigger] installed[i]).mod_id == required[k].artifact_id
                && installed[i].artifact_hash == required[k].artifact_hash by {
        let r = required[k];
        assert(required.contains(r));
        assert(required.to_multiset().count(r) > 0);
        assert(physical_entries(manifest).contains(r));
        lemma_physical_entries_subset(manifest, r);
        let m = choose|m: int| 0 <= m < manifest.len() && manifest[m] == r;
        assert(is_user_requirement(manifest[m]) && !is_legacy_entry(manifest[m]));
    }
    lemma_no_requirement_issues(required, installed);
    assert forall|i: int|
        0 <= i < installed.len() && (#[trigger] installed[i]).component_kind == ModComponentKind::UserServerMod implies required_user_id(
        required,
        installed[i].mod_id,
    ) by {
        let k = choose|k: int|
            0 <= k < manifest.len() && (#[trigger] manifest[k]).artifact_id == installed[i].mod_id && is_user_requirement(
                manifest[k],
            ) && !is_legacy_entry(manifest[k]);
        assert(manifest.contains(manifest[k]));
        lemma_canonical_contains(manifest, manifest[k]);
        let j = choose|j: int| 0 <= j < required.len() && required[j] == manifest[k];
        assert(required[j].artifact_id == installed[i].mod_id && is_user_requirement(required[j]));
    }
    lemma_no_unexpected_issues(installed, required);
    assert(Seq::<IssueView>::empty() + Seq::<IssueView>::empty() + Seq::<IssueView>::empty() + Seq::<IssueView>::empty()
        =~= Seq::<IssueView>::empty());
}

proof fn lemma_physical_entries_subset(manifest: Seq<RequirementView>, r: RequirementView)
    requires
        physical_entries(manifest).contains(r),
    ensures
        manifest.contains(r),
        !is_legacy_entry(r),
    decreases manifest.len(),
{
    if manifest.len() > 0 {
        let earlier = physical_entries(manifest.drop_last());
        if !is_legacy_entry(manifest.last()) && r == manifest.last() {
            assert(manifest[manifest.len() - 1] == r);
        } else {
            let j = choose|j: int| 0 <= j < physical_entries(manifest).len() && physical_entries(manifest)[j] == r;
            assert(earlier[j] == r);
            lemma_physical_entries_subset(manifest.drop_last(), r);
            let k = choose|k: int| 0 <= k < manifest.drop_last().len() && manifest.drop_last()[k] == r;
            assert(manifest[k] == r);
        }
    }
}

proof fn lemma_missing_in_requirement_issues(required: Seq<RequirementView>, installed: Seq<InstalledView>, r: RequirementView)
    requires
        required.contains(r),
        is_user_requirement(r),
        forall|i: int| 0 <= i < installed.len() ==> (#[trigger] installed[i]).mod_id != r.artifact_id,
    ensures
        exists|k: int|
            0 <= k < requirement_issues(required, installed).len() && (#[trigger] requirement_issues(required, installed)[k]).kind
                == ModIssueKind::MissingRequired && requirement_issues(required, installed)[k].mod_id == Some(r.artifact_id),
    decreases required.len(),
{
    let issues = requirement_issues(required, installed);
    let earlier = requirement_issues(required.drop_last(), installed);
    if required.last() == r {
        let single = requirement_issue(r, installed);
        assert(issues == earlier + single);
        assert(issues[earlier.len() as int] == single[0]);
    } else {
        let k = choose|k: int| 0 <= k < required.len() && required[k] == r;
        assert(required.drop_last()[k] == r);
        lemma_missing_in_requirement_issues(required.drop_last(), installed, r);
        let j = choose|j: int|
            0 <= j < earlier.len() && (#[trigger] earlier[j]).kind == ModIssueKind::MissingRequired && earlier[j].mod_id
                == Some(r.artifact_id);
        if is_user_requirement(required.last()) {
            assert(issues[j] == earlier[j]);
        }
    }
}

/// A user server mod that the profile requires and no installed JAR claims
/// is reported as missing.
pub proof fn lemma_missing_required_is_reported(
    manifest: Seq<RequirementView>,
    installed: Seq<InstalledView>,
    r: RequirementView,
)
    requires
        manifest.contains(r),
        !is_legacy_entry(r),
        is_user_requirement(r),
        forall|i: int| 0 <= i < installed.len() ==> (#[trigger] installed[i]).mod_id != r.artifact_id,
    ensures
        exists|k: int|
            0 <= k < inventory_issues(manifest, installed).len() && (#[trigger] inventory_issues(manifest, installed)[k]).kind
                == ModIssueKind::MissingRequired && inventory_issues(manifest, installed)[k].mod_id == Some(r.artifact_id),
{
    let required = canonical_requirements(manifest);
    lemma_canonical_contains(manifest, r);
    lemma_missing_in_requirement_issues(required, installed, r);
    let front = client_only_issues(installed) + duplicate_issues(installed, claimed_ids(installed));
    let middle = requirement_issues(required, installed);
    let all = inventory_issues(manifest, installed);
    let j = choose|j: int|
        0 <= j < middle.len() && (#[trigger] middle[j]).kind == ModIssueKind::MissingRequired && middle[j].mod_id == Some(
            r.artifact_id,
        );
    assert(all == front + middle + unexpected_issues(installed, required));
    assert(all[front.len() + j] == middle[j]);
}


proof fn lemma_claim_count_insert(s: Seq<InstalledView>, x: InstalledView, id: Seq<char>)
    ensures
        claim_count(insert_by(s, x, installed_le()), id) == claim_count(s, id) + (if x.mod_id == id {
            1nat
        } else {
            0nat
        }),
    decreases s.len(),
{
    let bump: nat = if x.mod_id == id {
        1nat
    } else {
        0nat
    };
    if s.len() == 0 {
        let one = seq![x];
        assert(insert_by(s, x, installed_le()) == one);
        assert(one.drop_last() =~= Seq::<InstalledView>::empty());
        assert(one.last() == x);
        assert(claim_count(one, id) == claim_count(one.drop_last(), id) + bump);
    } else if (installed_le())(s.last(), x) {
        let p = s.push(x);
        assert(insert_by(s, x, installed_le()) == p);
        assert(p.drop_last() =~= s);
        assert(p.last() == x);
        assert(claim_count(p, id) == claim_count(p.drop_last(), id) + bump);
    } else {
        lemma_claim_count_insert(s.drop_last(), x, id);
        let t = insert_by(s.drop_last(), x, installed_le());
        let p = t.push(s.last());
        assert(insert_by(s, x, installed_le()) == p);
        assert(p.drop_last() =~= t);
        assert(p.last() == s.last());
        assert(claim_count(t, id) == claim_count(s.drop_last(), id) + bump);
    }
}

proof fn lemma_claim_count_sort(s: Seq<InstalledView>, id: Seq<char>)
    ensures
        claim_count(sort_by(s, installed_le()), id) == claim_count(s, id),
    decreases s.len(),
{
    if s.len() > 0 {
        lemma_claim_count_sort(s.drop_last(), id);
        lemma_claim_count_insert(sort_by(s.drop_last(), installed_le()), s.last(), id);
    }
}

/// An element of a sorted sequence is an element of the sequence, and back.
proof fn lemma_sort_keeps_elements<T>(s: Seq<T>, le: spec_fn(T, T) -> bool, x: T)
    ensures
        sort_by(s, le).contains(x) <==> s.contains(x),
{
    broadcast use vstd::seq_lib::group_to_multiset_ensures;
    lemma_sort_by_multiset(s, le);
    assert(sort_by(s, le).to_multiset().count(x) == s.to_multiset().count(x));
}

/// No installed mod is client-only.
#[verifier::opaque]
pub open spec fn all_server_side(installed: Seq<InstalledView>) -> bool {
    forall|i: int| 0 <= i < installed.len() ==> (#[trigger] installed[i]).environment != ModEnvironment::Client
}

/// No mod id is claimed by two installed mods.
#[verifier::opaque]
pub open spec fn single_claims(installed: Seq<InstalledView>) -> bool {
    forall|id: Seq<char>| #[trigger] claim_count(installed, id) <= 1
}

/// Every installed user mod is named by a user entry of the profile.
#[verifier::opaque]
pub open spec fn users_named(manifest: Seq<RequirementView>, installed: Seq<InstalledView>) -> bool {
    forall|i: int|
        0 <= i < installed.len() && (#[trigger] installed[i]).component_kind == ModComponentKind::UserServerMod
            ==> exists|k: int|
            0 <= k < manifest.len() && (#[trigger] manifest[k]).artifact_id == installed[i].mod_id
                && is_user_requirement(manifest[k]) && !is_legacy_entry(manifest[k])
}

/// Every user entry of the profile is installed with its hash.
#[verifier::opaque]
pub open spec fn required_present(manifest: Seq<RequirementView>, installed: Seq<InstalledView>) -> bool {
    forall|k: int|
        0 <= k < manifest.len() && is_user_requirement(#[trigger] manifest[k]) && !is_legacy_entry(manifest[k])
            ==> exists|i: int|
            0 <= i < installed.len() && (#[trigger] installed[i]).mod_id == manifest[k].artifact_id
                && installed[i].artifact_hash == manifest[k].artifact_hash
}

/// The directory holds exactly the profile's user server mods: no
/// client-only mod, no mod id claimed twice, only user mods that the profile
/// names, and every user mod of the profile with its hash.
pub open spec fn exact_inventory(manifest: Seq<RequirementView>, installed: Seq<InstalledView>) -> bool {
    &&& all_server_side(installed)
    &&& single_claims(installed)
    &&& users_named(manifest, installed)
    &&& required_present(manifest, installed)
}

proof fn lemma_exact_inventory_clean(manifest: Seq<RequirementView>, installed: Seq<InstalledView>)
    requires
        exact_inventory(manifest, installed),
    ensures
        inventory_issues(manifest, installed) == Seq::<IssueView>::empty(),
{
    reveal(all_server_side);
    reveal(single_claims);
    reveal(users_named);
    reveal(required_present);
    lemma_exact_inventory_has_no_issues(manifest, installed);
}

/// Two inventories with the same elements.
pub open spec fn same_elements(a: Seq<InstalledView>, b: Seq<InstalledView>) -> bool {
    forall|x: InstalledView| #[trigger] a.contains(x) <==> b.contains(x)
}

proof fn lemma_permuted_server_side(installed: Seq<InstalledView>, other: Seq<InstalledView>)
    requires
        all_server_side(installed),
        same_elements(other, installed),
    ensures
        all_server_side(other),
{
    reveal(all_server_side);
    assert forall|i: int| 0 <= i < other.len() implies (#[trigger] other[i]).environment != ModEnvironment::Client by {
        assert(other.contains(other[i]));
        let j = choose|j: int| 0 <= j < installed.len() && installed[j] == other[i];
        assert(installed[j].environment != ModEnvironment::Client);
    }
}

proof fn lemma_permuted_named(manifest: Seq<RequirementView>, installed: Seq<InstalledView>, other: Seq<InstalledView>)
    requires
        users_named(manifest, installed),
        same_elements(other, installed),
    ensures
        users_named(manifest, other),
{
    reveal(users_named);
    assert forall|i: int|
        0 <= i < other.len() && (#[trigger] other[i]).component_kind == ModComponentKind::UserServerMod implies exists|k: int|
        0 <= k < manifest.len() && (#[trigger] manifest[k]).artifact_id == other[i].mod_id && is_user_requirement(
            manifest[k],
        ) && !is_legacy_entry(manifest[k]) by {
        assert(other.contains(other[i]));
        let j = choose|j: int| 0 <= j < installed.len() && installed[j] == other[i];
        assert(installed[j].component_kind == ModComponentKind::UserServerMod);
    }
}

proof fn lemma_permuted_required(manifest: Seq<RequirementView>, installed: Seq<InstalledView>, other: Seq<InstalledView>)
    requires
        required_present(manifest, installed),
        same_elements(other, installed),
    ensures
        required_present(manifest, other),
{
    reveal(required_present);
    assert forall|k: int|
        0 <= k < manifest.len() && is_user_requirement(#[trigger] manifest[k]) && !is_legacy_entry(manifest[k]) implies exists|i: int|
        0 <= i < other.len() && (#[trigger] other[i]).mod_id == manifest[k].artifact_id && other[i].artifact_hash
            == manifest[k].artifact_hash by {
        let j = choose|j: int|
            0 <= j < installed.len() && (#[trigger] installed[j]).mod_id == manifest[k].artifact_id
                && installed[j].artifact_hash == manifest[k].artifact_hash;
        assert(installed.contains(installed[j]));
        assert(other.contains(installed[j]));
        let i = choose|i: int| 0 <= i < other.len() && other[i] == installed[j];
        assert(other[i].mod_id == manifest[k].artifact_id);
    }
}

proof fn lemma_sorted_exact(manifest: Seq<RequirementView>, installed: Seq<InstalledView>)
    requires
        exact_inventory(manifest, installed),
    ensures
        exact_inventory(manifest, sort_by(installed, installed_le())),
{
    let sorted = sort_by(installed, installed_le());
    assert forall|x: InstalledView| #[trigger] sorted.contains(x) <==> installed.contains(x) by {
        lemma_sort_keeps_elements(installed, installed_le(), x);
    }
    lemma_permuted_server_side(installed, sorted);
    lemma_permuted_named(manifest, installed, sorted);
    lemma_permuted_required(manifest, installed, sorted);
    reveal(single_claims);
    assert forall|id: Seq<char>| #[trigger] claim_count(sorted, id) <= 1 by {
        lemma_claim_count_sort(installed, id);
    }
}

/// A mods directory whose JARs all read and that holds exactly the profile's
/// user server mods is ready: its readiness lists no issue.
pub proof fn lemma_exact_directory_is_ready(manifest: Seq<RequirementView>, installed: Seq<InstalledView>)
    requires
        exact_inventory(manifest, installed),
    ensures
        readiness_parts(manifest, installed, Seq::empty()).2 == Seq::<IssueView>::empty(),
{
    let sorted = sort_by(installed, installed_le());
    lemma_sorted_exact(manifest, installed);
    lemma_exact_inventory_clean(manifest, sorted);
    let all = Seq::<IssueView>::empty() + inventory_issues(manifest, sorted);
    assert(all =~= Seq::<IssueView>::empty());
}


proof fn lemma_sorted_lacks_id(installed: Seq<InstalledView>, id: Seq<char>)
    requires
        forall|i: int| 0 <= i < installed.len() ==> (#[trigger] installed[i]).mod_id != id,
    ensures
        forall|i: int|
            0 <= i < sort_by(installed, installed_le()).len() ==> (#[trigger] sort_by(installed, installed_le())[i]).mod_id
                != id,
{
    let sorted = sort_by(installed, installed_le());
    assert forall|i: int| 0 <= i < sorted.len() implies (#[trigger] sorted[i]).mod_id != id by {
        lemma_sort_keeps_elements(installed, installed_le(), sorted[i]);
        assert(sorted.contains(sorted[i]));
        let j = choose|j: int| 0 <= j < installed.len() && installed[j] == sorted[i];
        assert(installed[j].mod_id != id);
    }
}

/// A required user mod that no readable JAR provides is reported as missing
/// in the directory's readiness, which is then not ready.
pub proof fn lemma_missing_mod_blocks_readiness(
    manifest: Seq<RequirementView>,
    installed: Seq<InstalledView>,
    invalid: Seq<IssueView>,
    r: RequirementView,
)
    requires
        manifest.contains(r),
        !is_legacy_entry(r),
        is_user_requirement(r),
        forall|i: int| 0 <= i < installed.len() ==> (#[trigger] installed[i]).mod_id != r.artifact_id,
    ensures
        readiness_parts(manifest, installed, invalid).2.len() > 0,
        exists|k: int|
            0 <= k < readiness_parts(manifest, installed, invalid).2.len() && (#[trigger] readiness_parts(
                manifest,
                installed,
                invalid,
            ).2[k]).kind == ModIssueKind::MissingRequired && readiness_parts(manifest, installed, invalid).2[k].mod_id
                == Some(r.artifact_id),
{
    let sorted = sort_by(installed, installed_le());
    lemma_sorted_lacks_id(installed, r.artifact_id);
    lemma_missing_required_is_reported(manifest, sorted, r);
    let inv = inventory_issues(manifest, sorted);
    let k = choose|k: int|
        0 <= k < inv.len() && (#[trigger] inv[k]).kind == ModIssueKind::MissingRequired && inv[k].mod_id == Some(
            r.artifact_id,
        );
    let item = inv[k];
    let all = invalid + inv;
    assert(all[invalid.len() + k] == item);
    assert(all.contains(item));
    lemma_sort_keeps_elements(all, issue_le(), item);
    let issues = sort_by(all, issue_le());
    assert(issues.contains(item));
    let k2 = choose|k2: int| 0 <= k2 < issues.len() && issues[k2] == item;
    assert(issues[k2].kind == ModIssueKind::MissingRequired);
    assert(readiness_parts(manifest, installed, invalid).2 == issues);
}

proof fn lemma_installed_le_total_preorder()
    ensures
        total_preorder(installed_le()),
{
    assert forall|a: InstalledView, b: InstalledView| #[trigger] installed_le()(a, b) || installed_le()(b, a) by {
        lemma_lex_total(a.mod_id, b.mod_id);
        lemma_lex_total(a.version, b.version);
        lemma_lex_total(a.file_name, b.file_name);
    }
    assert forall|a: InstalledView, b: InstalledView, c: InstalledView|
        #[trigger] installed_le()(a, b) && #[trigger] installed_le()(b, c) implies installed_le()(a, c) by {
        lemma_lex_chain(a.mod_id, b.mod_id, c.mod_id);
        lemma_lex_chain(a.version, b.version, c.version);
        lemma_lex_chain(a.file_name, b.file_name, c.file_name);
    }
}

proof fn lemma_opt_chain(x: Option<Seq<char>>, y: Option<Seq<char>>, z: Option<Seq<char>>)
    ensures
        opt_le(x, y) || opt_le(y, x),
        opt_le(x, y) && opt_le(y, z) ==> opt_le(x, z),
        opt_le(x, y) && opt_le(y, x) ==> x == y,
{
    match (x, y) {
        (Some(a), Some(b)) => {
            lemma_lex_total(a, b);
            if lex_le(a, b) && lex_le(b, a) {
                lemma_lex_antisymmetric(a, b);
            }
        },
        _ => {},
    }
    match (x, y, z) {
        (Some(a), Some(b), Some(c)) => {
            lemma_lex_chain(a, b, c);
        },
        _ => {},
    }
}

proof fn lemma_issue_le_total_preorder()
    ensures
        total_preorder(issue_le()),
{
    assert forall|a: IssueView, b: IssueView| #[trigger] issue_le()(a, b) || issue_le()(b, a) by {
        lemma_opt_chain(a.mod_id, b.mod_id, b.mod_id);
        lemma_opt_chain(a.file_name, b.file_name, b.file_name);
    }
    assert forall|a: IssueView, b: IssueView, c: IssueView|
        #[trigger] issue_le()(a, b) && #[trigger] issue_le()(b, c) implies issue_le()(a, c) by {
        lemma_opt_chain(a.mod_id, b.mod_id, c.mod_id);
        lemma_opt_chain(b.mod_id, c.mod_id, a.mod_id);
        lemma_opt_chain(c.mod_id, a.mod_id, b.mod_id);
        lemma_opt_chain(a.file_name, b.file_name, c.file_name);
    }
}

/// The readiness of a mods directory lists the required mods in canonical
/// order, every readable JAR once in order, and every issue in order,
/// among them every unreadable JAR's own issue: no JAR is left out.
pub proof fn lemma_readiness_is_ordered_and_complete(
    manifest: Seq<RequirementView>,
    installed: Seq<InstalledView>,
    invalid: Seq<IssueView>,
)
    ensures
        ({
            let (required, listed, issues) = readiness_parts(manifest, installed, invalid);
            &&& required == required_list(canonical_requirements(manifest))
            &&& sorted_by(canonical_requirements(manifest), requirement_le())
            &&& canonical_requirements(manifest).to_multiset() == physical_entries(manifest).to_multiset()
            &&& sorted_by(listed, installed_le())
            &&& listed.to_multiset() == installed.to_multiset()
            &&& sorted_by(issues, issue_le())
            &&& forall|k: int| 0 <= k < invalid.len() ==> issues.contains(#[trigger] invalid[k])
        }),
{
    broadcast use vstd::seq_lib::group_to_multiset_ensures;
    lemma_requirement_le_total_preorder();
    lemma_installed_le_total_preorder();
    lemma_issue_le_total_preorder();
    lemma_sort_by_sorted(physical_entries(manifest), requirement_le());
    lemma_sort_by_multiset(physical_entries(manifest), requirement_le());
    lemma_sort_by_sorted(installed, installed_le());
    lemma_sort_by_multiset(installed, installed_le());
    let listed = sort_by(installed, installed_le());
    let all = invalid + inventory_issues(manifest, listed);
    lemma_sort_by_sorted(all, issue_le());
    lemma_sort_by_multiset(all, issue_le());
    let issues = sort_by(all, issue_le());
    assert forall|k: int| 0 <= k < invalid.len() implies issues.contains(#[trigger] invalid[k]) by {
        assert(all[k] == invalid[k]);
        assert(all.contains(invalid[k]));
        assert(all.to_multiset().count(invalid[k]) > 0);
        assert(issues.to_multiset().count(invalid[k]) > 0);
    }
}

proof fn lemma_client_issues_empty(installed: Seq<InstalledView>)
    requires
        client_only_issues(installed).len() == 0,
    ensures
        forall|i: int| 0 <= i < installed.len() ==> (#[trigger] installed[i]).environment != ModEnvironment::Client,
    decreases installed.len(),
{
    if installed.len() > 0 {
        lemma_client_issues_empty(installed.drop_last());
        assert forall|i: int| 0 <= i < installed.len() implies (#[trigger] installed[i]).environment
            != ModEnvironment::Client by {
            if i < installed.len() - 1 {
                assert(installed.drop_last()[i] == installed[i]);
            }
        }
    }
}

proof fn lemma_duplicate_issues_empty(installed: Seq<InstalledView>, ids: Seq<Seq<char>>)
    requires
        duplicate_issues(installed, ids).len() == 0,
    ensures
        forall|k: int| 0 <= k < ids.len() ==> claim_count(installed, #[trigger] ids[k]) <= 1,
    decreases ids.len(),
{
    if ids.len() > 0 {
        lemma_duplicate_issues_empty(installed, ids.drop_last());
        assert forall|k: int| 0 <= k < ids.len() implies claim_count(installed, #[trigger] ids[k]) <= 1 by {
            if k < ids.len() - 1 {
                assert(ids.drop_last()[k] == ids[k]);
            }
        }
    }
}

proof fn lemma_claimed_mod_is_installed(installed: Seq<InstalledView>, id: Seq<char>)
    requires
        claim_count(installed, id) > 0,
    ensures
        exists|i: int| 0 <= i < installed.len() && (#[trigger] installed[i]).mod_id == id,
    decreases installed.len(),
{
    if installed.last().mod_id == id {
        assert(installed[installed.len() - 1].mod_id == id);
    } else {
        lemma_claimed_mod_is_installed(installed.drop_last(), id);
        let i = choose|i: int| 0 <= i < installed.len() - 1 && (#[trigger] installed.drop_last()[i]).mod_id == id;
        assert(installed[i] == installed.drop_last()[i]);
    }
}

proof fn lemma_claimed_ids_cover(installed: Seq<InstalledView>, id: Seq<char>)
    requires
        claim_count(installed, id) > 0,
    ensures
        claimed_ids(installed).contains(id),
{
    broadcast use vstd::seq_lib::group_to_multiset_ensures;
    lemma_claimed_mod_is_installed(installed, id);
    let i = choose|i: int| 0 <= i < installed.len() && (#[trigger] installed[i]).mod_id == id;
    let ids = mod_ids(installed);
    assert(ids[i] == id);
    assert(ids.contains(id));
    lemma_sort_by_multiset(ids, text_le());
    assert(ids.to_multiset().count(id) > 0);
    assert(sort_by(ids, text_le()).to_multiset().count(id) > 0);
    lemma_dedup_contains(sort_by(ids, text_le()), id);
}

proof fn lemma_requirement_issues_empty(required: Seq<RequirementView>, installed: Seq<InstalledView>)
    requires
        requirement_issues(required, installed).len() == 0,
    ensures
        forall|k: int|
            0 <= k < required.len() && is_user_requirement(#[trigger] required[k]) ==> exists|i: int|
                0 <= i < installed.len() && (#[trigger] installed[i]).mod_id == required[k].artifact_id
                    && installed[i].artifact_hash == required[k].artifact_hash,
    decreases required.len(),
{
    if required.len() > 0 {
        let front = required.drop_last();
        lemma_requirement_issues_empty(front, installed);
        assert forall|k: int| 0 <= k < required.len() && is_user_requirement(#[trigger] required[k]) implies exists|
            i: int,
        |
            0 <= i < installed.len() && (#[trigger] installed[i]).mod_id == required[k].artifact_id
                && installed[i].artifact_hash == required[k].artifact_hash by {
            if k < required.len() - 1 {
                assert(front[k] == required[k]);
            } else {
                assert(requirement_issue(required.last(), installed).len() == 0);
            }
        }
    }
}

proof fn lemma_unexpected_issues_empty(installed: Seq<InstalledView>, required: Seq<RequirementView>)
    requires
        unexpected_issues(installed, required).len() == 0,
    ensures
        forall|i: int|
            0 <= i < installed.len() && (#[trigger] installed[i]).component_kind == ModComponentKind::UserServerMod
                ==> required_user_id(required, installed[i].mod_id),
    decreases installed.len(),
{
    if installed.len() > 0 {
        lemma_unexpected_issues_empty(installed.drop_last(), required);
        assert forall|i: int|
            0 <= i < installed.len() && (#[trigger] installed[i]).component_kind == ModComponentKind::UserServerMod
                implies required_user_id(required, installed[i].mod_id) by {
            if i < installed.len() - 1 {
                assert(installed.drop_last()[i] == installed[i]);
            }
        }
    }
}

/// An inventory is clean for a profile: no client-only mod, no mod id
/// claimed twice, every installed user server mod required by the profile,
/// and every required user server mod installed with the canonical hash.
pub open spec fn clean_inventory(manifest: Seq<RequirementView>, installed: Seq<InstalledView>) -> bool {
    &&& forall|i: int| 0 <= i < installed.len() ==> (#[trigger] installed[i]).environment != ModEnvironment::Client
    &&& forall|id: Seq<char>| #[trigger] claim_count(installed, id) <= 1
    &&& forall|i: int|
        0 <= i < installed.len() && (#[trigger] installed[i]).component_kind == ModComponentKind::UserServerMod
            ==> exists|k: int|
            0 <= k < manifest.len() && (#[trigger] manifest[k]).artifact_id == installed[i].mod_id
                && is_user_requirement(manifest[k]) && !is_legacy_entry(manifest[k])
    &&& forall|k: int|
        0 <= k < manifest.len() && is_user_requirement(#[trigger] manifest[k]) && !is_legacy_entry(manifest[k])
            ==> exists|i: int|
            0 <= i < installed.len() && (#[trigger] installed[i]).mod_id == manifest[k].artifact_id
                && installed[i].artifact_hash == manifest[k].artifact_hash
}

proof fn lemma_empty_gives_single_claims(installed: Seq<InstalledView>)
    requires
        duplicate_issues(installed, claimed_ids(installed)).len() == 0,
    ensures
        forall|id: Seq<char>| #[trigger] claim_count(installed, id) <= 1,
{
    let ids = claimed_ids(installed);
    lemma_duplicate_issues_empty(installed, ids);
    assert forall|id: Seq<char>| #[trigger] claim_count(installed, id) <= 1 by {
        if claim_count(installed, id) > 0 {
            lemma_claimed_ids_cover(installed, id);
            let k = choose|k: int| 0 <= k < ids.len() && ids[k] == id;
            assert(claim_count(installed, ids[k]) <= 1);
        }
    }
}

proof fn lemma_empty_gives_users_required(manifest: Seq<RequirementView>, installed: Seq<InstalledView>)
    requires
        unexpected_issues(installed, canonical_requirements(manifest)).len() == 0,
    ensures
        forall|i: int|
            0 <= i < installed.len() && (#[trigger] installed[i]).component_kind == ModComponentKind::UserServerMod
                ==> exists|k: int|
                0 <= k < manifest.len() && (#[trigger] manifest[k]).artifact_id == installed[i].mod_id
                    && is_user_requirement(manifest[k]) && !is_legacy_entry(manifest[k]),
{
    broadcast use vstd::seq_lib::group_to_multiset_ensures;
    let required = canonical_requirements(manifest);
    lemma_unexpected_issues_empty(installed, required);
    lemma_sort_by_multiset(physical_entries(manifest), requirement_le());
    assert forall|i: int|
        0 <= i < installed.len() && (#[trigger] installed[i]).component_kind == ModComponentKind::UserServerMod
            implies exists|k: int|
            0 <= k < manifest.len() && (#[trigger] manifest[k]).artifact_id == installed[i].mod_id
                && is_user_requirement(manifest[k]) && !is_legacy_entry(manifest[k]) by {
        assert(required_user_id(required, installed[i].mod_id));
        let m = choose|m: int|
            0 <= m < required.len() && (#[trigger] required[m]).artifact_id == installed[i].mod_id
                && is_user_requirement(required[m]);
        let r = required[m];
        assert(required.contains(r));
        assert(required.to_multiset().count(r) > 0);
        assert(physical_entries(manifest).to_multiset().count(r) > 0);
        lemma_physical_entries_subset(manifest, r);
        let k = choose|k: int| 0 <= k < manifest.len() && manifest[k] == r;
        assert(manifest[k].artifact_id == installed[i].mod_id);
    }
}

proof fn lemma_empty_gives_required_present(manifest: Seq<RequirementView>, installed: Seq<InstalledView>)
    requires
        requirement_issues(canonical_requirements(manifest), installed).len() == 0,
    ensures
        forall|k: int|
            0 <= k < manifest.len() && is_user_requirement(#[trigger] manifest[k]) && !is_legacy_entry(manifest[k])
                ==> exists|i: int|
                0 <= i < installed.len() && (#[trigger] installed[i]).mod_id == manifest[k].artifact_id
                    && installed[i].artifact_hash == manifest[k].artifact_hash,
{
    let required = canonical_requirements(manifest);
    lemma_requirement_issues_empty(required, installed);
    assert forall|k: int|
        0 <= k < manifest.len() && is_user_requirement(#[trigger] manifest[k]) && !is_legacy_entry(manifest[k])
            implies exists|i: int|
            0 <= i < installed.len() && (#[trigger] installed[i]).mod_id == manifest[k].artifact_id
                && installed[i].artifact_hash == manifest[k].artifact_hash by {
        let r = manifest[k];
        assert(manifest.contains(r));
        lemma_canonical_contains(manifest, r);
        let m = choose|m: int| 0 <= m < required.len() && required[m] == r;
        assert(is_user_requirement(required[m]));
    }
}

/// A profile comparison finds no issue exactly when the inventory is clean
/// for the profile.
pub proof fn lemma_no_issues_iff_clean(manifest: Seq<RequirementView>, installed: Seq<InstalledView>)
    ensures
        inventory_issues(manifest, installed).len() == 0 <==> clean_inventory(manifest, installed),
{
    if clean_inventory(manifest, installed) {
        lemma_exact_inventory_has_no_issues(manifest, installed);
    }
    if inventory_issues(manifest, installed).len() == 0 {
        let required = canonical_requirements(manifest);
        assert(client_only_issues(installed).len() == 0);
        assert(duplicate_issues(installed, claimed_ids(installed)).len() == 0);
        assert(requirement_issues(required, installed).len() == 0);
        assert(unexpected_issues(installed, required).len() == 0);
        lemma_client_issues_empty(installed);
        lemma_empty_gives_single_claims(installed);
        lemma_empty_gives_users_required(manifest, installed);
        lemma_empty_gives_required_present(manifest, installed);
    }
}

} // verus!
