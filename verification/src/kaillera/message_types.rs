//! Message type codes.

use vstd::prelude::*;

verus! {

pub const USER_QUIT: u8 = 0x01;
pub const USER_JOINED: u8 = 0x02;
pub const USER_LOGIN: u8 = 0x03;
pub const SERVER_STATUS: u8 = 0x04;
pub const SERVER_TO_CLIENT_ACK: u8 = 0x05;
pub const CLIENT_TO_SERVER_ACK: u8 = 0x06;
pub const GLOBAL_CHAT: u8 = 0x07;
pub const GAME_CHAT: u8 = 0x08;
pub const CLIENT_KEEP_ALIVE: u8 = 0x09;
pub const CREATE_GAME: u8 = 0x0A;
pub const QUIT_GAME: u8 = 0x0B;
pub const JOIN_GAME: u8 = 0x0C;
pub const PLAYER_INFORMATION: u8 = 0x0D;
pub const UPDATE_GAME_STATUS: u8 = 0x0E;
pub const KICK_USER: u8 = 0x0F;
pub const CLOSE_GAME: u8 = 0x10;
pub const START_GAME: u8 = 0x11;
pub const GAME_DATA: u8 = 0x12;
pub const GAME_CACHE: u8 = 0x13;
pub const DROP_GAME: u8 = 0x14;
pub const READY_TO_PLAY: u8 = 0x15;
pub const CONNECTION_REJECTED: u8 = 0x16;
pub const SERVER_INFORMATION: u8 = 0x17;

} // verus!
