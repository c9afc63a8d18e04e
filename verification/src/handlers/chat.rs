//! Chat in the lobby and in a room.

use vstd::prelude::*;
#[allow(unused_imports)]
use vstd::utf8::encode_utf8;
use crate::kaillera::message_types::{GAME_CHAT, GLOBAL_CHAT};
use crate::kaillera::protocol::ParsedMessage;
use crate::packet_util::{build_game_chat_packet, build_global_chat_packet};
#[allow(unused_imports)]
use crate::packet_util::chat_body;
use crate::state::{AppState, ClientInfo, GameInfo, ServerError};
#[allow(unused_imports)]
use crate::state::{has_addr, ServerModel};
use crate::text::text_bytes;
use crate::wire::{buffer_of, read_string_bytes};
#[allow(unused_imports)]
use crate::wire::{after_string, first_string};
use super::util::{broadcast_packet, send_to_room, Action};
#[allow(unused_imports)]
use super::util::{actions_view, done, failed, to_all, to_room, yields, Outcome};

verus! {

/// The text of a chat request: the second string of its body.
pub open spec fn chat_text(data: Seq<u8>) -> Seq<u8> {
    first_string(after_string(data))
}

/// Reads the text of a chat request.
fn read_chat_text(data: &[u8]) -> (text: Vec<u8>)
    ensures
        text@ == chat_text(data@),
{
    let mut buf = buffer_of(data);
    let _empty: Vec<u8> = read_string_bytes(&mut buf);
    read_string_bytes(&mut buf)
}

/// Lobby chat goes to everybody, under the sender's name where it is known.
pub open spec fn global_chat_outcome(m: ServerModel, src: u64, data: Seq<u8>) -> Outcome<()> {
    let username = match m.client(src) {
        Some(client) => client.username,
        None => encode_utf8("Unknown"@),
    };
    done(m, seq![to_all(m, GLOBAL_CHAT, chat_body(username, chat_text(data)))])
}

/// Handles a chat line for the lobby.
pub fn handle_global_chat(
    message: ParsedMessage,
    src: u64,
    state: &mut AppState,
    out: &mut Vec<Action>,
) -> (result: Result<(), ServerError>)
    requires
        old(state)@.wf(),
    ensures
        final(state)@.wf(),
        yields(
            global_chat_outcome(old(state)@, src, message.data@),
            final(state)@,
            old(out)@,
            final(out)@,
            result,
        ),
{
    let ghost before = actions_view(out@);
    let chat_message: Vec<u8> = read_chat_text(message.data.as_slice());
    let username: Vec<u8> = match state.get_client(src) {
        Some(client) => client.username,
        None => text_bytes("Unknown"),
    };
    let data: Vec<u8> = build_global_chat_packet(username.as_slice(), chat_message.as_slice());
    broadcast_packet(state, out, GLOBAL_CHAT, data);
    assert(actions_view(out@) =~= before + global_chat_outcome(
        old(state)@,
        src,
        message.data@,
    ).actions);
    Ok(())
}

/// Room chat goes to everybody who is listed in the sender's room. A line with
/// byte 0x11 is not passed on.
pub open spec fn game_chat_outcome(m: ServerModel, src: u64, data: Seq<u8>) -> Outcome<()> {
    match m.client(src) {
        None => failed(m, Seq::empty(), ServerError::ClientNotFound),
        Some(client) => match client.game_id {
            None => failed(m, Seq::empty(), ServerError::NotInGame),
            Some(game_id) => match m.game(game_id) {
                None => failed(m, Seq::empty(), ServerError::GameNotFound),
                Some(game) => if !has_addr(game.players, src) || chat_text(data).contains(
                    0x11u8,
                ) {
                    done(m, Seq::empty())
                } else {
                    done(
                        m,
                        seq![to_room(game, GAME_CHAT, chat_body(client.username, chat_text(data)))],
                    )
                },
            },
        },
    }
}

/// Whether a byte occurs in a byte string.
fn contains_byte(data: &[u8], byte: u8) -> (found: bool)
    ensures
        found == data@.contains(byte),
{
    let mut i: usize = 0;
    while i < data.len()
        invariant
            i <= data@.len(),
            forall|j: int| 0 <= j < i ==> data@[j] != byte,
        decreases data.len() - i,
    {
        if data[i] == byte {
            return true;
        }
        i += 1;
    }
    false
}

/// Handles a chat line for the sender's room.
pub fn handle_game_chat(
    message: ParsedMessage,
    src: u64,
    state: &mut AppState,
    out: &mut Vec<Action>,
) -> (result: Result<(), ServerError>)
    requires
        old(state)@.wf(),
    ensures
        final(state)@.wf(),
        yields(
            game_chat_outcome(old(state)@, src, message.data@),
            final(state)@,
            old(out)@,
            final(out)@,
            result,
        ),
{
    let ghost before = actions_view(out@);
    assert(before + Seq::empty() =~= before);
    let chat_message: Vec<u8> = read_chat_text(message.data.as_slice());
    let client: ClientInfo = match state.get_client(src) {
        Some(client) => client,
        None => {
            return Err(ServerError::ClientNotFound);
        },
    };
    let game_id: u32 = match client.game_id {
        Some(game_id) => game_id,
        None => {
            return Err(ServerError::NotInGame);
        },
    };
    let game: &GameInfo = match state.get_game(game_id) {
        Some(game) => game,
        None => {
            return Err(ServerError::GameNotFound);
        },
    };
    if game.slot_of(src).is_none() {
        return Ok(());
    }
    assert(has_addr(game@.players, src));
    if contains_byte(chat_message.as_slice(), 0x11) {
        return Ok(());
    }
    let data: Vec<u8> = build_game_chat_packet(
        client.username.as_slice(),
        chat_message.as_slice(),
    );
    send_to_room(game, out, GAME_CHAT, data);
    assert(actions_view(out@) =~= before + game_chat_outcome(
        old(state)@,
        src,
        message.data@,
    ).actions);
    Ok(())
}

} // verus!
