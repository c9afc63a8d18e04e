//! Messages that enter and leave the synchronisation layers.

use vstd::prelude::*;
use crate::text::decimal_string;
#[allow(unused_imports)]
use crate::text::decimal;

verus! {

/// Client input message type.
#[derive(Debug, Clone, PartialEq)]
pub enum ClientInput {
    /// The actual input bytes.
    GameData(Vec<u8>),
    /// A position in the client's cache.
    GameCache(u8),
}

/// A client input as a mathematical value.
pub enum InputModel {
    GameData(Seq<u8>),
    GameCache(u8),
}

impl View for ClientInput {
    type V = InputModel;

    open spec fn view(&self) -> InputModel {
        match self {
            ClientInput::GameData(data) => InputModel::GameData(data@),
            ClientInput::GameCache(pos) => InputModel::GameCache(*pos),
        }
    }
}

/// Server response message type.
#[derive(Debug, Clone, PartialEq)]
pub enum ServerResponse {
    /// The full combined input bytes.
    GameData(Vec<u8>),
    /// A position in the server's cache.
    GameCache(u8),
}

/// A server response as a mathematical value.
pub enum ResponseModel {
    GameData(Seq<u8>),
    GameCache(u8),
}

impl View for ServerResponse {
    type V = ResponseModel;

    open spec fn view(&self) -> ResponseModel {
        match self {
            ServerResponse::GameData(data) => ResponseModel::GameData(data@),
            ServerResponse::GameCache(pos) => ResponseModel::GameCache(*pos),
        }
    }
}

/// Combined bytes for one player, before the cache layer.
#[derive(Debug, PartialEq, Clone)]
pub struct PlayerOutput {
    pub player_id: usize,
    pub output: Vec<u8>,
}

/// Combined bytes for one player as a mathematical value.
pub struct OutputModel {
    pub player_id: usize,
    pub output: Seq<u8>,
}

impl View for PlayerOutput {
    type V = OutputModel;

    open spec fn view(&self) -> OutputModel {
        OutputModel { player_id: self.player_id, output: self.output@ }
    }
}

/// The views of a list of outputs.
pub open spec fn outputs_view(outputs: Seq<PlayerOutput>) -> Seq<OutputModel> {
    outputs.map_values(|o: PlayerOutput| o@)
}

/// Output for one player, after the cache layer.
#[derive(Debug, Clone, PartialEq)]
pub struct CachedPlayerOutput {
    pub player_id: usize,
    pub response: ServerResponse,
}

/// A cached output as a mathematical value.
pub struct CachedOutputModel {
    pub player_id: usize,
    pub response: ResponseModel,
}

impl View for CachedPlayerOutput {
    type V = CachedOutputModel;

    open spec fn view(&self) -> CachedOutputModel {
        CachedOutputModel { player_id: self.player_id, response: self.response@ }
    }
}

/// The views of a list of cached outputs.
pub open spec fn cached_outputs_view(outputs: Seq<CachedPlayerOutput>) -> Seq<CachedOutputModel> {
    outputs.map_values(|o: CachedPlayerOutput| o@)
}

/// Error types for game sync operations.
#[derive(Debug, Clone, PartialEq)]
pub enum GameSyncError {
    /// Invalid player ID (out of range).
    InvalidPlayerId { player_id: usize, player_count: usize },
    /// Cache position not found.
    CachePositionNotFound { player_id: usize, position: u8 },
    /// Internal buffer inconsistency (should not happen in normal operation).
    BufferInconsistency { message: String },
}

impl GameSyncError {
    /// The message of an error.
    pub open spec fn message(self) -> Seq<char> {
        match self {
            GameSyncError::InvalidPlayerId { player_id, player_count } => "Invalid player_id: "@
                + decimal(player_id as nat) + " (valid range: 0.."@ + decimal(player_count as nat)
                + ")"@,
            GameSyncError::CachePositionNotFound { player_id, position } => "Cache position "@
                + decimal(position as nat) + " not found for player "@ + decimal(player_id as nat),
            GameSyncError::BufferInconsistency { message } => "Buffer inconsistency: "@ + message@,
        }
    }

    /// The error as text.
    pub fn to_string(&self) -> (text: String)
        ensures
            text@ == self.message(),
    {
        match self {
            GameSyncError::InvalidPlayerId { player_id, player_count } => {
                let id: String = decimal_string(*player_id as u64);
                let count: String = decimal_string(*player_count as u64);
                "Invalid player_id: ".to_owned().concat(id.as_str()).concat(
                    " (valid range: 0..",
                ).concat(count.as_str()).concat(")")
            },
            GameSyncError::CachePositionNotFound { player_id, position } => {
                let pos: String = decimal_string(*position as u64);
                let id: String = decimal_string(*player_id as u64);
                "Cache position ".to_owned().concat(pos.as_str()).concat(
                    " not found for player ",
                ).concat(id.as_str())
            },
            GameSyncError::BufferInconsistency { message } => {
                "Buffer inconsistency: ".to_owned().concat(message.as_str())
            },
        }
    }
}

} // verus!
