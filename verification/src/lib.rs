//! A single node of a distributed workload runner speaking the Maelstrom
//! line protocol: a deduplicating dispatcher, a peer registry with
//! liveness states, a broadcast value store with per-peer pending sets, a
//! grow-only counter reconciled through compare-and-set, and a snowflake
//! id generator. Every reply and outbound envelope is rendered by a
//! verified JSON emitter, so replayed requests are answered byte for
//! byte.

pub mod commands;
pub mod dispatch;
pub mod g_counter;
pub mod json;
pub mod message;
pub mod neighbors;
pub mod snowflake;
pub mod state;
pub mod storage;
pub mod strutil;
pub mod value_store;
pub mod vecutil;
pub mod worker;
