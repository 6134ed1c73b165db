//! Verified core of the SwarmCraft command-line host: the JAR/ZIP and DEFLATE
//! readers used to identify Fabric mods, the server-mod inventory rules, the
//! host-readiness decision, the authority protocol's decisions (membership,
//! epochs, transfers, recovery, leases and the authority permit), and the
//! policy checks around runtime preparation, provider downloads, invites and
//! discovery.
use vstd::prelude::*;

pub mod inflate;
pub mod zip_archive;
pub mod text;
pub mod runtime_installer;
pub mod package_provider;
pub mod clock;
pub mod discovery;
pub mod launch_guard;
pub mod runtime_process_guard;
pub mod host_readiness;
pub mod server_mods;
pub mod provider_runtime;
pub mod migration;
pub mod world_import;
pub mod invite;
pub mod authority_permit;
pub mod runtime_layout;
pub mod authorization;
pub mod membership_requests;
pub mod peer_requests;
pub mod authority_tick;
pub mod outbound;
pub mod world_commands;

verus! {
}
