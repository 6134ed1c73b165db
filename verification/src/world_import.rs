//! Importing an existing Minecraft save: the result handed back, and the
//! checks on the request that need no file system.
use vstd::prelude::*;
use crate::text::{chars_of, eq_ignore_ascii_case, eq_ignore_ascii_case_spec, trim, trim_spec};

verus! {

pub struct ImportWorldResult {
    pub world_id: String,
    pub display_name: String,
    pub snapshot_number: u64,
    pub snapshot_hash: String,
    pub state_root: String,
    pub files: usize,
    pub compatibility_fingerprint: String,
}

#[derive(Debug, Clone, Copy, PartialEq, Eq, Structural)]
pub enum ImportError {
    NameRequired,
    MinecraftVersionRequired,
    LoaderVersionRequired,
    /// Neither server-mod JARs nor a statement that none are needed.
    ServerModsUnknown,
    /// Server-mod JARs together with a statement that none are needed.
    ServerModsContradictory,
}

impl ImportError {
    pub fn message(&self) -> (r: String)
        ensures
            self is NameRequired ==> r@ == "imported world name is required"@,
            self is MinecraftVersionRequired ==> r@ == "exact Minecraft version is required for safe import compatibility"@,
            self is LoaderVersionRequired ==> r@ == "exact Fabric loader version is required for safe import compatibility"@,
            self is ServerModsUnknown ==> r@ == "server-mod compatibility is unknown; provide every required server mod JAR or explicitly confirm that this world requires no third-party server mods"@,
            self is ServerModsContradictory ==> r@ == "cannot both provide server mod JARs and declare that the imported world requires no third-party server mods"@,
    {
        match self {
            ImportError::NameRequired => String::from_str("imported world name is required"),
            ImportError::MinecraftVersionRequired => String::from_str(
                "exact Minecraft version is required for safe import compatibility",
            ),
            ImportError::LoaderVersionRequired => String::from_str(
                "exact Fabric loader version is required for safe import compatibility",
            ),
            ImportError::ServerModsUnknown => String::from_str(
                "server-mod compatibility is unknown; provide every required server mod JAR or explicitly confirm that this world requires no third-party server mods",
            ),
            ImportError::ServerModsContradictory => String::from_str(
                "cannot both provide server mod JARs and declare that the imported world requires no third-party server mods",
            ),
        }
    }
}

/// A version is exact where, trimmed, it is neither empty nor `unknown` in
/// any ASCII case.
pub open spec fn exact_version(v: Seq<char>) -> bool {
    trim_spec(v).len() > 0 && !eq_ignore_ascii_case_spec(trim_spec(v), "unknown"@)
}

fn is_exact_version(v: &str) -> (r: bool)
    ensures
        r == exact_version(v@),
{
    let t = chars_of(trim(v).as_str());
    proof {
        reveal_strlit("unknown");
    }
    let unknown = chars_of("unknown");
    t.len() > 0 && !eq_ignore_ascii_case(t.as_slice(), unknown.as_slice())
}

/// The name and the exact Minecraft and loader versions an import needs,
/// checked in that order.
pub fn validate_import_identity(name: &str, minecraft_version: &str, loader_version: &str) -> (r: Result<
    (),
    ImportError,
>)
    ensures
        trim_spec(name@).len() == 0 ==> r == Err::<(), ImportError>(ImportError::NameRequired),
        trim_spec(name@).len() > 0 && !exact_version(minecraft_version@) ==> r == Err::<(), ImportError>(
            ImportError::MinecraftVersionRequired,
        ),
        trim_spec(name@).len() > 0 && exact_version(minecraft_version@) && !exact_version(loader_version@) ==> r
            == Err::<(), ImportError>(ImportError::LoaderVersionRequired),
        r is Ok <==> trim_spec(name@).len() > 0 && exact_version(minecraft_version@) && exact_version(loader_version@),
{
    if trim(name).as_str().unicode_len() == 0 {
        return Err(ImportError::NameRequired);
    }
    if !is_exact_version(minecraft_version) {
        return Err(ImportError::MinecraftVersionRequired);
    }
    if !is_exact_version(loader_version) {
        return Err(ImportError::LoaderVersionRequired);
    }
    Ok(())
}

/// An import must either bring every server-mod JAR or state that the
/// world needs none, and not both.
pub fn validate_server_mod_statement(jar_count: usize, confirm_no_server_mods: bool) -> (r: Result<(), ImportError>)
    ensures
        r is Ok <==> ((jar_count == 0 && confirm_no_server_mods) || (jar_count > 0 && !confirm_no_server_mods)),
        jar_count == 0 && !confirm_no_server_mods ==> r == Err::<(), ImportError>(ImportError::ServerModsUnknown),
        jar_count > 0 && confirm_no_server_mods ==> r == Err::<(), ImportError>(ImportError::ServerModsContradictory),
{
    if jar_count == 0 && !confirm_no_server_mods {
        return Err(ImportError::ServerModsUnknown);
    }
    if jar_count > 0 && confirm_no_server_mods {
        return Err(ImportError::ServerModsContradictory);
    }
    Ok(())
}

} // verus!
