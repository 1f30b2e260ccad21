//! Matchmaking-and-routing core of a tick-based multiplayer game server,
//! together with the client-side snapshot reconciliation engine.
//!
//! Sessions are turned into lobby members, abstract message targets are
//! resolved into concrete recipient sets, every lobby is driven through a
//! globally ordered per-tick phase sequence, and the companion client keeps
//! its locally materialized entities consistent with authoritative
//! per-tick snapshots.

pub mod lobby;
pub mod lobby_management;
pub mod maps;
pub mod messages;
pub mod reconcile;
pub mod server;
pub mod session;
pub mod targets;
pub mod util;
