//! Input of live games and the signal that a player is ready.

use vstd::prelude::*;
#[allow(unused_imports)]
use vstd::utf8::encode_utf8;
use crate::kaillera::message_types::{GAME_CHAT, READY_TO_PLAY, UPDATE_GAME_STATUS};
use crate::kaillera::protocol::ParsedMessage;
use crate::packet_util::{build_game_chat_packet, build_ready_to_play_packet};
#[allow(unused_imports)]
use crate::packet_util::{chat_body, empty_string};
#[allow(unused_imports)]
use crate::simplest_game_sync::types::{cached_outputs_view, InputModel};
use crate::simplest_game_sync::{ClientInput, DelayedGameSync, GameSyncError};
use crate::state::{
    AppState, ClientInfo, GameInfo, GamePlayerInfo, ServerError, PLAYER_STATUS_NET_SYNC,
    PLAYER_STATUS_PLAYING,
};
#[allow(unused_imports)]
use crate::state::{players_view, ClientModel, GameModel, PlayerModel, ServerModel};
use crate::text::text_bytes;
use crate::wire::{buffer_of, take_bytes, take_u16_le, take_u8};
#[allow(unused_imports)]
use crate::wire::read_le16;
use super::outputs::{check_outputs, send_outputs};
#[allow(unused_imports)]
use super::outputs::{delivery_result, output_actions};
use super::room::{duplicate_players, present_players, set_status_of_players};
#[allow(unused_imports)]
use super::room::{
    lemma_lan_input, lemma_mark_keeps, lemma_update_keeps, mark_players, present,
};
use super::util::{
    broadcast_packet, broadcast_packet_to_game, make_update_game_status, resolve_in_game,
    send_packet, Action,
};
#[allow(unused_imports)]
use super::util::{
    actions_view, done, failed, resolved_in_game, status_of, to_all, to_game, to_one, yields,
    Outcome,
};

verus! {

/// The body of an input is complete: an empty string, a length, and as many
/// bytes.
pub open spec fn game_data_complete(data: Seq<u8>) -> bool {
    data.len() >= 3 && data.len() >= 3 + read_le16(data.skip(1))
}

/// The input bytes of a body.
pub open spec fn game_data_bytes(data: Seq<u8>) -> Seq<u8> {
    data.subrange(3, 3 + read_le16(data.skip(1)))
}

/// The body of a cached input is complete: an empty string and the position.
pub open spec fn game_cache_complete(data: Seq<u8>) -> bool {
    data.len() >= 2
}

/// The room once an input of the player in `slot` arrived.
pub open spec fn heard_from(game: GameModel, slot: int, now: u64) -> GameModel {
    GameModel {
        players: game.players.update(
            slot,
            PlayerModel { last_game_data_recv: Some(now), ..game.players[slot] },
        ),
        ..game
    }
}

/// Input of the player in `slot` of a room. What the game sends goes out only
/// if all of it can be delivered.
pub open spec fn input_outcome(
    m: ServerModel,
    src: u64,
    game_id: u32,
    slot: int,
    input: InputModel,
    now: u64,
) -> Outcome<()> {
    let game = heard_from(m.games[game_id], slot, now);
    let heard = m.with_game(game_id, game);
    match game.sync {
        None => failed(heard, Seq::empty(), ServerError::SyncNotInitialized),
        Some(sync) => if slot >= sync.players() {
            failed(
                heard,
                Seq::empty(),
                ServerError::InvalidPlayerId {
                    player_id: slot as usize,
                    player_count: sync.players() as usize,
                },
            )
        } else if sync.resolved(slot, input) is None {
            failed(
                heard,
                seq![
                    to_one(
                        src,
                        GAME_CHAT,
                        chat_body(
                            encode_utf8("Server"@),
                            encode_utf8("Game Data Error! Game state will be inconsistent!"@),
                        ),
                    ),
                ],
                ServerError::CacheMiss {
                    player_id: slot as usize,
                    position: input->GameCache_0,
                },
            )
        } else {
            let outputs = sync.input_responses(slot, input);
            let after = m.with_game(
                game_id,
                GameModel { sync: Some(sync.after_input(slot, input)), ..game },
            );
            match delivery_result(game.players.len(), outputs) {
                Ok(_) => done(after, output_actions(game.players, outputs)),
                Err(error) => failed(after, Seq::empty(), error),
            }
        },
    }
}

/// Input bytes of a live game. Who is in no room is ignored.
pub open spec fn game_data_outcome(
    m: ServerModel,
    src: u64,
    data: Seq<u8>,
    now: u64,
) -> Outcome<()> {
    match resolved_in_game(m, src) {
        None => done(m, Seq::empty()),
        Some((game_id, slot)) => input_outcome(
            m,
            src,
            game_id,
            slot,
            InputModel::GameData(game_data_bytes(data)),
            now,
        ),
    }
}

/// A cached input of a live game. Who is in no room is ignored; who refers to an
/// empty position is told that the game will be inconsistent.
pub open spec fn game_cache_outcome(
    m: ServerModel,
    src: u64,
    data: Seq<u8>,
    now: u64,
) -> Outcome<()> {
    match resolved_in_game(m, src) {
        None => done(m, Seq::empty()),
        Some((game_id, slot)) => input_outcome(
            m,
            src,
            game_id,
            slot,
            InputModel::GameCache(data[1]),
            now,
        ),
    }
}

/// Notes when an input of the player in `slot` arrived.
fn hear_from(game: &mut GameInfo, slot: usize, now: u64)
    requires
        old(game)@.wf(),
        slot < old(game)@.players.len(),
    ensures
        final(game)@ == heard_from(old(game)@, slot as int, now),
        final(game)@.wf(),
{
    let ghost before = game@;
    let mut player: GamePlayerInfo = game.players[slot].duplicate();
    player.last_game_data_recv = Some(now);
    proof {
        lemma_update_keeps(before.players, slot as int, player@);
    }
    game.players.set(slot, player);
    assert(players_view(game.players@) =~= before.players.update(slot as int, player@));
    assert(game@ =~= heard_from(before, slot as int, now));
}

/// Hands an input of the player in `slot` to the live game of its room, and
/// sends what comes out.
pub fn process_input(
    src: u64,
    game_id: u32,
    slot: usize,
    input: ClientInput,
    now: u64,
    state: &mut AppState,
    out: &mut Vec<Action>,
) -> (result: Result<(), ServerError>)
    requires
        old(state)@.wf(),
        old(state)@.game(game_id) is Some,
        slot < old(state)@.games[game_id].players.len(),
    ensures
        final(state)@.wf(),
        yields(
            input_outcome(old(state)@, src, game_id, slot as int, input@, now),
            final(state)@,
            old(out)@,
            final(out)@,
            result,
        ),
{
    let ghost m = state@;
    let ghost before = actions_view(out@);
    let ghost outcome = input_outcome(m, src, game_id, slot as int, input@, now);
    assert(before + Seq::empty() =~= before);
    let mut game: GameInfo = match state.remove_game(game_id) {
        Some(game) => game,
        None => {
            assert(false);
            return Ok(());
        },
    };
    assert(m.games[game_id] == game@);
    hear_from(&mut game, slot, now);
    let ghost heard = game@;
    let mut sync: DelayedGameSync = match game.sync_manager.take() {
        Some(sync) => sync,
        None => {
            assert(game@ =~= heard);
            state.add_game(game_id, game);
            assert(state@ =~= m.with_game(game_id, heard));
            return Err(ServerError::SyncNotInitialized);
        },
    };
    let ghost old_sync = sync@;
    assert(heard.sync == Some(old_sync));
    proof {
        if slot < old_sync.players() {
            lemma_lan_input(old_sync, slot as int, input@);
        }
    }
    let processed = sync.process_client_input(slot, input);
    let ghost new_sync = sync@;
    game.sync_manager = Some(sync);
    assert(game@ =~= (GameModel { sync: Some(new_sync), ..heard }));
    match processed {
        Ok((outputs, _, _)) => {
            let checked = check_outputs(game.players.as_slice(), outputs.as_slice());
            if checked.is_ok() {
                let _ = send_outputs(game.players.as_slice(), outputs.as_slice(), out);
                proof {
                    let all = cached_outputs_view(outputs@);
                    assert(all.take(all.len() as int) =~= all);
                }
            }
            state.add_game(game_id, game);
            assert(state@ =~= outcome.state);
            checked
        },
        Err(error) => {
            assert(new_sync == old_sync);
            assert(game@ =~= heard);
            state.add_game(game_id, game);
            assert(state@ =~= m.with_game(game_id, heard));
            match error {
                GameSyncError::CachePositionNotFound { player_id, position } => {
                    let source: Vec<u8> = text_bytes("Server");
                    let line: Vec<u8> = text_bytes(
                        "Game Data Error! Game state will be inconsistent!",
                    );
                    let chat: Vec<u8> = build_game_chat_packet(source.as_slice(), line.as_slice());
                    send_packet(out, src, GAME_CHAT, chat);
                    assert(actions_view(out@) =~= before + outcome.actions);
                    Err(ServerError::CacheMiss { player_id, position })
                },
                GameSyncError::InvalidPlayerId { player_id, player_count } => {
                    Err(ServerError::InvalidPlayerId { player_id, player_count })
                },
                GameSyncError::BufferInconsistency { message: _ } => {
                    Err(ServerError::SyncNotInitialized)
                },
            }
        },
    }
}

/// Reads the input bytes of a body.
fn read_game_data(data: &[u8]) -> (bytes: Vec<u8>)
    requires
        game_data_complete(data@),
    ensures
        bytes@ == game_data_bytes(data@),
{
    let mut buf = buffer_of(data);
    let _empty: u8 = take_u8(&mut buf);
    let data_length: usize = take_u16_le(&mut buf) as usize;
    let bytes: Vec<u8> = take_bytes(&mut buf, data_length);
    assert(bytes@ =~= game_data_bytes(data@));
    bytes
}

/// Handles input bytes of a live game.
pub fn handle_game_data(
    message: ParsedMessage,
    src: u64,
    now: u64,
    state: &mut AppState,
    out: &mut Vec<Action>,
) -> (result: Result<(), ServerError>)
    requires
        old(state)@.wf(),
        game_data_complete(message.data@),
    ensures
        final(state)@.wf(),
        yields(
            game_data_outcome(old(state)@, src, message.data@, now),
            final(state)@,
            old(out)@,
            final(out)@,
            result,
        ),
{
    assert(actions_view(out@) + Seq::empty() =~= actions_view(out@));
    let game_data: Vec<u8> = read_game_data(message.data.as_slice());
    match resolve_in_game(state, src) {
        Some((game_id, slot)) => process_input(
            src,
            game_id,
            slot,
            ClientInput::GameData(game_data),
            now,
            state,
            out,
        ),
        None => Ok(()),
    }
}

/// Reads the position of a cached input.
fn read_game_cache(data: &[u8]) -> (position: u8)
    requires
        game_cache_complete(data@),
    ensures
        position == data@[1],
{
    let mut buf = buffer_of(data);
    let _empty: u8 = take_u8(&mut buf);
    take_u8(&mut buf)
}

/// Handles a cached input of a live game.
pub fn handle_game_cache(
    message: ParsedMessage,
    src: u64,
    now: u64,
    state: &mut AppState,
    out: &mut Vec<Action>,
) -> (result: Result<(), ServerError>)
    requires
        old(state)@.wf(),
        game_cache_complete(message.data@),
    ensures
        final(state)@.wf(),
        yields(
            game_cache_outcome(old(state)@, src, message.data@, now),
            final(state)@,
            old(out)@,
            final(out)@,
            result,
        ),
{
    assert(actions_view(out@) + Seq::empty() =~= actions_view(out@));
    let position: u8 = read_game_cache(message.data.as_slice());
    match resolve_in_game(state, src) {
        Some((game_id, slot)) => process_input(
            src,
            game_id,
            slot,
            ClientInput::GameCache(position),
            now,
            state,
            out,
        ),
        None => Ok(()),
    }
}

/// A player who is in the room signalled that it is ready, and is logged in.
pub open spec fn is_ready(m: ServerModel, player: PlayerModel) -> bool {
    player.ready && m.client(player.addr) is Some
}

/// Everybody who is present is ready to play.
pub open spec fn all_ready(m: ServerModel, players: Seq<PlayerModel>) -> bool {
    forall|i: int|
        0 <= i < players.len() ==> (#[trigger] players[i]).left_room || is_ready(m, players[i])
}

/// The room once the player at `src` signalled that it is ready.
pub open spec fn signalled(game: GameModel, src: u64) -> GameModel {
    match game.slot_of(src) {
        Some(slot) => GameModel {
            players: game.players.update(slot, PlayerModel { ready: true, ..game.players[slot] }),
            ..game
        },
        None => game,
    }
}

/// The ready signal. A client who plays already is ignored. The room notes who
/// signalled; once everybody who is present did, everybody plays and the room is
/// told.
pub open spec fn ready_outcome(m: ServerModel, src: u64) -> Outcome<()> {
    match m.client(src) {
        None => failed(m, Seq::empty(), ServerError::ClientNotFound),
        Some(client) => if client.player_status == PLAYER_STATUS_PLAYING {
            done(m, Seq::empty())
        } else {
            let waits = m.with_client(
                src,
                ClientModel { player_status: PLAYER_STATUS_NET_SYNC, ..client },
            );
            match client.game_id {
                None => failed(waits, Seq::empty(), ServerError::NotInGame),
                Some(game_id) => match m.game(game_id) {
                    None => failed(waits, Seq::empty(), ServerError::GameNotFound),
                    Some(game) => {
                        let noted = signalled(game, src);
                        let state = waits.with_game(game_id, noted);
                        let told = seq![to_all(state, UPDATE_GAME_STATUS, status_of(noted))];
                        if all_ready(state, noted.players) {
                            let present_now = present(noted.players);
                            let playing = mark_players(
                                state,
                                present_now,
                                PLAYER_STATUS_PLAYING,
                                present_now.len(),
                            );
                            done(
                                playing,
                                told + to_game(playing, game_id, READY_TO_PLAY, empty_string()),
                            )
                        } else {
                            done(state, told)
                        }
                    },
                },
            }
        },
    }
}

/// Whether everybody who is present is ready to play.
fn players_ready(state: &AppState, players: &[GamePlayerInfo]) -> (ready: bool)
    ensures
        ready == all_ready(state@, players_view(players@)),
{
    let ghost all = players_view(players@);
    let mut i: usize = 0;
    while i < players.len()
        invariant
            i <= players@.len(),
            all == players_view(players@),
            forall|j: int|
                0 <= j < i ==> (#[trigger] all[j]).left_room || is_ready(state@, all[j]),
        decreases players.len() - i,
    {
        assert(all[i as int] == players@[i as int]@);
        if !players[i].left_room && !(players[i].ready && state.get_client(
            players[i].addr,
        ).is_some()) {
            assert(!all[i as int].left_room && !is_ready(state@, all[i as int]));
            return false;
        }
        i += 1;
    }
    true
}

/// Notes that the player at `src` signalled.
fn note_ready(game: &mut GameInfo, src: u64)
    requires
        old(game)@.wf(),
    ensures
        final(game)@ == signalled(old(game)@, src),
        final(game)@.wf(),
{
    let ghost before = game@;
    if let Some(slot) = game.slot_of(src) {
        let mut player: GamePlayerInfo = game.players[slot].duplicate();
        player.ready = true;
        proof {
            lemma_update_keeps(before.players, slot as int, player@);
        }
        game.players.set(slot, player);
        assert(players_view(game.players@) =~= before.players.update(slot as int, player@));
    }
    assert(game@ =~= signalled(before, src));
}

/// Handles the signal that a player is ready to play.
pub fn handle_ready_to_play_signal(
    message: ParsedMessage,
    src: u64,
    state: &mut AppState,
    out: &mut Vec<Action>,
) -> (result: Result<(), ServerError>)
    requires
        old(state)@.wf(),
        message.data@.len() >= 1,
    ensures
        final(state)@.wf(),
        yields(
            ready_outcome(old(state)@, src),
            final(state)@,
            old(out)@,
            final(out)@,
            result,
        ),
{
    let ghost m = state@;
    let ghost before = actions_view(out@);
    let ghost outcome = ready_outcome(m, src);
    assert(before + Seq::empty() =~= before);
    let mut buf = buffer_of(message.data.as_slice());
    let _empty: u8 = take_u8(&mut buf);
    let client: ClientInfo = match state.get_client(src) {
        Some(client) => client,
        None => {
            return Err(ServerError::ClientNotFound);
        },
    };
    if client.player_status == PLAYER_STATUS_PLAYING {
        return Ok(());
    }
    let in_game: Option<u32> = client.game_id;
    let mut client = client;
    client.player_status = PLAYER_STATUS_NET_SYNC;
    let _ = state.update_client(src, client);
    let ghost waits = state@;
    let game_id: u32 = match in_game {
        Some(game_id) => game_id,
        None => {
            return Err(ServerError::NotInGame);
        },
    };
    let mut game: GameInfo = match state.remove_game(game_id) {
        Some(game) => game,
        None => {
            assert(state@ =~= waits);
            return Err(ServerError::GameNotFound);
        },
    };
    assert(m.games[game_id] == game@);
    note_ready(&mut game, src);
    let ghost noted = game@;
    let status_data: Vec<u8> = make_update_game_status(&game);
    let players: Vec<GamePlayerInfo> = duplicate_players(game.players.as_slice());
    state.add_game(game_id, game);
    assert(state@ =~= waits.with_game(game_id, noted));
    let ghost here = state@;
    broadcast_packet(state, out, UPDATE_GAME_STATUS, status_data);
    if players_ready(state, players.as_slice()) {
        let present_now: Vec<GamePlayerInfo> = present_players(players.as_slice());
        proof {
            let kept = present(noted.players);
            assert(kept.len() == present_now@.len());
            lemma_mark_keeps(here, kept, PLAYER_STATUS_PLAYING, kept.len());
        }
        set_status_of_players(state, present_now.as_slice(), PLAYER_STATUS_PLAYING);
        broadcast_packet_to_game(
            state,
            out,
            game_id,
            READY_TO_PLAY,
            build_ready_to_play_packet(),
        );
    }
    assert(actions_view(out@) =~= before + outcome.actions);
    Ok(())
}

} // verus!
