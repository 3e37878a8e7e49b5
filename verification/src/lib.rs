//! In-memory fan-out core for blockchain state-change events.

pub mod block_assembly;
pub mod block_meta;
pub mod channel_laws;
pub mod commitment;
pub mod dedup_laws;
pub mod geyser_loop;
pub mod message;
pub mod message_store;
pub mod pubkey_index;
pub mod replay_laws;
pub mod session;
pub mod slot_maps;
pub mod slot_messages;
pub mod sorting;
pub mod status;
pub mod update;
