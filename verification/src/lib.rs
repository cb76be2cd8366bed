//! Core of a reliable external-message pool (REMP) for a sharded blockchain:
//! a message cache with a controlled status state machine, the wire codec for
//! message records carried by the catchain broadcast, the per-validator-set
//! catchain session identity, and the ref-counted session lifecycle store.

pub mod cache;
pub mod codec;
pub mod ids;
pub mod kvlist;
pub mod message;
pub mod remp_catchain;
pub mod status;
