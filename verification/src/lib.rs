//! Core of a real-time relay server for a multiplayer game mod. Clients
//! announce and update their player state; the server registers each
//! connection, enforces capacity and denylists, keeps one persistent
//! player record per identity across reconnects, and computes the fan-out
//! of every inbound packet to the other connected peers — under merge
//! mode with a per-recipient scenario rewrite. The connection lifecycle,
//! the registry and store transitions, and the wire-header framing are
//! all specified and verified here; sockets, channels and scheduling live
//! with the embedding I/O layer, which drives this state machine.

pub mod header;
pub mod packet;
pub mod peer;
pub mod player;
pub mod server;
pub mod settings;
pub mod store;

use vstd::prelude::*;

verus! {

/// Stable 128-bit identifier a client chooses for itself; primary key for
/// both the peer registry and the player store.
pub type PlayerId = u128;

/// Canonical numeric form of a remote network address.
pub type Address = u128;

} // verus!
