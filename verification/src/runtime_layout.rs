//! Where managed runtimes and per-world runtime components live below the
//! data root. Each path is given as its list of components; joining them onto
//! the root, in order, gives the file-system path.
use vstd::prelude::*;
use crate::text::{decimal_spec, decimal_string, hex_spec, hex_string, texts_of};

verus! {

/// The version of the runtime lock file's layout.
pub const RUNTIME_LOCK_SCHEMA_VERSION: u16 = 1;

pub open spec fn runtimes_spec() -> Seq<Seq<char>> {
    seq!["runtimes"@]
}

/// The root of all managed runtimes.
pub fn managed_runtimes_root() -> (r: Vec<String>)
    ensures
        texts_of(r@) == runtimes_spec(),
{
    let r = vec![String::from_str("runtimes")];
    assert(texts_of(r@) =~= runtimes_spec());
    r
}

pub open spec fn java_root_spec(major: u32) -> Seq<Seq<char>> {
    runtimes_spec() + seq!["java"@, decimal_spec(major as nat)]
}

/// The managed Java runtime of one major version.
pub fn managed_java_root(major: u32) -> (r: Vec<String>)
    ensures
        texts_of(r@) == java_root_spec(major),
{
    let r = vec![String::from_str("runtimes"), String::from_str("java"), decimal_string(major as u64)];
    assert(texts_of(r@) =~= java_root_spec(major));
    r
}

pub open spec fn minecraft_server_spec(minecraft: Seq<char>) -> Seq<Seq<char>> {
    runtimes_spec() + seq!["minecraft"@, minecraft, "server.jar"@]
}

/// The vanilla server JAR of one Minecraft version.
pub fn managed_minecraft_server(minecraft: &str) -> (r: Vec<String>)
    ensures
        texts_of(r@) == minecraft_server_spec(minecraft@),
{
    let r = vec![
        String::from_str("runtimes"),
        String::from_str("minecraft"),
        minecraft.to_string(),
        String::from_str("server.jar"),
    ];
    assert(texts_of(r@) =~= minecraft_server_spec(minecraft@));
    r
}

pub open spec fn fabric_server_spec(minecraft: Seq<char>, loader: Seq<char>) -> Seq<Seq<char>> {
    runtimes_spec() + seq!["fabric"@, minecraft, loader, "fabric-server-launch.jar"@]
}

/// The Fabric server launcher of one Minecraft and loader version.
pub fn managed_fabric_server(minecraft: &str, loader: &str) -> (r: Vec<String>)
    ensures
        texts_of(r@) == fabric_server_spec(minecraft@, loader@),
{
    let r = vec![
        String::from_str("runtimes"),
        String::from_str("fabric"),
        minecraft.to_string(),
        loader.to_string(),
        String::from_str("fabric-server-launch.jar"),
    ];
    assert(texts_of(r@) =~= fabric_server_spec(minecraft@, loader@));
    r
}

/// `<name>/<version>/<name>-<version>.jar` below the runtimes root.
pub open spec fn versioned_jar_spec(name: Seq<char>, version: Seq<char>) -> Seq<Seq<char>> {
    runtimes_spec() + seq![name, version, name + "-"@ + version + ".jar"@]
}

fn versioned_jar(name: &str, version: &str) -> (r: Vec<String>)
    ensures
        texts_of(r@) == versioned_jar_spec(name@, version@),
{
    let mut file = name.to_string();
    file.append("-");
    file.append(version);
    file.append(".jar");
    let r = vec![String::from_str("runtimes"), name.to_string(), version.to_string(), file];
    assert(texts_of(r@) =~= versioned_jar_spec(name@, version@));
    r
}

/// The Fabric API JAR of one version.
pub fn managed_fabric_api(version: &str) -> (r: Vec<String>)
    ensures
        texts_of(r@) == versioned_jar_spec("fabric-api"@, version@),
{
    versioned_jar("fabric-api", version)
}

/// The SwarmCraft Fabric mod JAR of one version.
pub fn managed_swarmcraft_fabric(version: &str) -> (r: Vec<String>)
    ensures
        texts_of(r@) == versioned_jar_spec("swarmcraft-fabric"@, version@),
{
    versioned_jar("swarmcraft-fabric", version)
}

pub open spec fn world_root_spec(world_id: Seq<u8>) -> Seq<Seq<char>> {
    seq!["runtime-components"@, hex_spec(world_id)]
}

/// The directory of one world's runtime components.
pub fn managed_world_root(world_id: &[u8]) -> (r: Vec<String>)
    ensures
        texts_of(r@) == world_root_spec(world_id@),
{
    let r = vec![String::from_str("runtime-components"), hex_string(world_id)];
    assert(texts_of(r@) =~= world_root_spec(world_id@));
    r
}

fn world_entry(world_id: &[u8], entry: &str) -> (r: Vec<String>)
    ensures
        texts_of(r@) == world_root_spec(world_id@).push(entry@),
{
    let r = vec![String::from_str("runtime-components"), hex_string(world_id), entry.to_string()];
    assert(texts_of(r@) =~= world_root_spec(world_id@).push(entry@));
    r
}

/// The world's server directory.
pub fn managed_world_server_dir(world_id: &[u8]) -> (r: Vec<String>)
    ensures
        texts_of(r@) == world_root_spec(world_id@).push("server"@),
{
    world_entry(world_id, "server")
}

/// The world's managed mods directory.
pub fn managed_world_mods_dir(world_id: &[u8]) -> (r: Vec<String>)
    ensures
        texts_of(r@) == world_root_spec(world_id@).push("mods"@),
{
    world_entry(world_id, "mods")
}

/// The world's managed configuration directory.
pub fn managed_world_config_dir(world_id: &[u8]) -> (r: Vec<String>)
    ensures
        texts_of(r@) == world_root_spec(world_id@).push("config"@),
{
    world_entry(world_id, "config")
}

/// The world's runtime lock file.
pub fn runtime_lock_path(world_id: &[u8]) -> (r: Vec<String>)
    ensures
        texts_of(r@) == world_root_spec(world_id@).push("runtime-lock.json"@),
{
    world_entry(world_id, "runtime-lock.json")
}

/// The lock file held while a world's runtime is being installed.
pub fn runtime_install_lock_path(world_id: &[u8]) -> (r: Vec<String>)
    ensures
        texts_of(r@) == world_root_spec(world_id@).push("install.lock"@),
{
    world_entry(world_id, "install.lock")
}

} // verus!
