//! Frame synchronisation: the lockstep combiner, its cache layer and the
//! startup delay layer.

pub mod cache_laws;
pub mod cached;
pub mod combiner;
pub mod delay_laws;
pub mod delayed;
pub mod frames;
pub mod input_cache;
pub mod lockstep_laws;
pub mod progress_laws;
pub mod stream_laws;
pub mod types;

pub use cached::CachedGameSync;
pub use combiner::SimplestGameSync;
pub use delayed::DelayedGameSync;
pub use frames::{PlayerInput, PlayerOutputState};
pub use input_cache::InputCache;
pub use types::{CachedPlayerOutput, ClientInput, GameSyncError, PlayerOutput, ServerResponse};
