//! Verified core of a racing-telemetry ingestion engine.
//!
//! The library decodes the game's binary packet family, paces and
//! deduplicates what gets republished, tracks per-championship listeners
//! and their ports, and models the firewall, broadcast, snapshot and
//! event-table effects that surround the ingest loop.  All I/O (UDP
//! sockets, the key/value store, the relational store, the host packet
//! filter) is performed by a thin unverified driver that feeds events to
//! [`ingest::IngestState::step`] and carries out the actions it returns.

pub mod body;
pub mod bus;
pub mod entity;
pub mod events;
pub mod firewall;
pub mod header;
pub mod ingest;
pub mod keys;
pub mod laws;
pub mod maps;
pub mod packets;
pub mod ports;
pub mod proto;
pub mod registry;
pub mod store;
pub mod utf8;
pub mod wire;
