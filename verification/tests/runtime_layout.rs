use swarm_cli::runtime_layout::{
    managed_fabric_api, managed_fabric_server, managed_java_root, managed_minecraft_server,
    managed_runtimes_root, managed_swarmcraft_fabric, managed_world_config_dir, managed_world_mods_dir,
    managed_world_root, managed_world_server_dir, runtime_install_lock_path, runtime_lock_path,
    RUNTIME_LOCK_SCHEMA_VERSION,
};

#[test]
fn runtime_paths_are_versioned_below_runtimes() {
    assert_eq!(managed_runtimes_root(), vec!["runtimes"]);
    assert_eq!(managed_java_root(21), vec!["runtimes", "java", "21"]);
    assert_eq!(managed_minecraft_server("1.21.1"), vec!["runtimes", "minecraft", "1.21.1", "server.jar"]);
    assert_eq!(
        managed_fabric_server("1.21.1", "0.16.5"),
        vec!["runtimes", "fabric", "1.21.1", "0.16.5", "fabric-server-launch.jar"]
    );
    assert_eq!(
        managed_fabric_api("0.102.0+1.21.1"),
        vec!["runtimes", "fabric-api", "0.102.0+1.21.1", "fabric-api-0.102.0+1.21.1.jar"]
    );
    assert_eq!(
        managed_swarmcraft_fabric("0.4.0"),
        vec!["runtimes", "swarmcraft-fabric", "0.4.0", "swarmcraft-fabric-0.4.0.jar"]
    );
    assert_eq!(RUNTIME_LOCK_SCHEMA_VERSION, 1);
}

#[test]
fn world_paths_are_keyed_by_world_hex() {
    let mut world = [0u8; 32];
    world[0] = 0x01;
    world[31] = 0xff;
    let hex = format!("01{}ff", "00".repeat(30));
    assert_eq!(managed_world_root(&world), vec!["runtime-components".to_string(), hex.clone()]);
    assert_eq!(managed_world_server_dir(&world)[2], "server");
    assert_eq!(managed_world_mods_dir(&world)[2], "mods");
    assert_eq!(managed_world_config_dir(&world)[2], "config");
    assert_eq!(runtime_lock_path(&world), vec!["runtime-components".to_string(), hex.clone(), "runtime-lock.json".to_string()]);
    assert_eq!(runtime_install_lock_path(&world)[2], "install.lock");
}
