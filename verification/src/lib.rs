//! Core of a fault-tolerant, totally-ordered reliable multicast subsystem.
//!
//! The library is organised in layers, leaves first:
//! configuration ([`config`]), wire types ([`protocol`]) and their binary
//! encoding ([`codec`]), per-peer handles ([`member`]), best-effort fan-out
//! ([`basic`]), reliable relay with duplicate suppression ([`reliable`]),
//! and the three-phase priority-agreement engine ([`total_order`]).
//! The [`bank`] and [`cli`] modules hold the canonical replicated-ledger
//! application served by the core.
//!
//! Everything that decides or computes lives here and is verified; the
//! surrounding process (sockets, timers, event loops) hands these functions
//! plain values and carries their results back out.

pub mod config;
pub mod protocol;
pub mod codec;
pub mod pq;
pub mod member;
pub mod basic;
pub mod reliable;
pub mod total_order;
pub mod bank;
pub mod cli;
