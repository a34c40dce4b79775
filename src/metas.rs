pub mod meta;
pub mod filter;
pub mod state;
pub mod wal;
pub mod events;
pub mod snapshot;
