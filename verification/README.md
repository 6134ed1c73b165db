# swarm_cli

The verified core of the SwarmCraft command-line host, written in Verus.

SwarmCraft hosts a Minecraft world among a group of peers: one peer is the
world's authority at a time, hands the world over by a signed transfer, and
is replaced by a recovery vote when it disappears. The code under `src/`
holds the decisions of that protocol and of the host around it, each with a
contract that Verus proves:

- `inflate`, `zip_archive`: reading a Fabric mod JAR (ZIP directory, stored
  and DEFLATE entries, CRC-32);
- `server_mods`, `package_provider`, `provider_runtime`: identifying mods,
  the server-mod inventory of a world, provider checks (hashes, file names,
  metadata budgets);
- `runtime_installer`, `runtime_layout`, `runtime_process_guard`,
  `launch_guard`, `host_readiness`: the runtime a world needs, whether a host
  may launch or shut down, and where things live on disk;
- `authorization`, `membership_requests`, `peer_requests`, `authority_tick`,
  `authority_permit`, `outbound`, `migration`: the authority protocol — who may
  speak for a world, which epochs, leases, transfers and recovery ballots are
  accepted, and what the daemon does on each tick;
- `discovery`, `invite`, `world_import`, `world_commands`: discovery of
  public worlds and friends, invites, importing a save, and the world
  commands of the command line;
- `text`, `clock`: text helpers and the wall clock.

Storage, signatures, networking, processes and timers stay with the caller:
each function takes what they produced as plain values.

`app/` is a small command-line front end over the library (mod inspection,
server-mod inventory, download checks, invites, runtime paths, the authority
permit, the friend list, and recording and checking a world's verified
runtime JARs). `tests/` runs the library on concrete values.
