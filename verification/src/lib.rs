//! A Kaillera server: lockstep frame synchronisation for emulators, the lobby
//! and room rules around it, and the wire format.

pub mod bytes_util;
pub mod config;
pub mod config_text;
pub mod control;
pub mod handlers;
pub mod kaillera;
pub mod logger;
pub mod map_util;
pub mod master_list;
pub mod outbox;
pub mod outbox_laws;
pub mod packet_laws;
pub mod packet_util;
pub mod session_laws;
pub mod session_rules;
pub mod session_manager;
pub mod simplest_game_sync;
pub mod state;
pub mod text;
pub mod text_laws;
pub mod wire;
