//! Directory synchronisation over a shared-memory ring buffer.

pub mod apply;
pub mod apply_laws;
pub mod chunker;
pub mod cli;
pub mod delivery;
pub mod event;
pub mod hash;
pub mod names;
pub mod path;
pub mod path_laws;
pub mod path_map;
pub mod protocol_laws;
pub mod ring;
pub mod shm;
pub mod shm_laws;
pub mod stability;
pub mod sync;
pub mod sync_laws;
pub mod watcher;
pub mod watcher_laws;
