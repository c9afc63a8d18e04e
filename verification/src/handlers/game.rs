//! Opening, joining and leaving rooms; starting and dropping games; kicking.

use vstd::prelude::*;
#[allow(unused_imports)]
use vstd::utf8::encode_utf8;
use crate::bytes_util::copy_bytes;
use crate::kaillera::message_types::{
    CLOSE_GAME, CREATE_GAME, DROP_GAME, GAME_CHAT, JOIN_GAME, PLAYER_INFORMATION, QUIT_GAME,
    START_GAME, UPDATE_GAME_STATUS,
};
use crate::kaillera::protocol::ParsedMessage;
use crate::packet_util::{
    build_close_game_packet, build_drop_game_packet, build_game_chat_packet, build_join_game_packet,
    build_new_game_notification, build_quit_game_packet, build_start_game_packet,
};
#[allow(unused_imports)]
use crate::packet_util::{
    chat_body, close_game_body, drop_game_body, join_game_body, new_game_body,
    player_information_body, quit_game_body, start_game_body,
};
#[allow(unused_imports)]
use crate::simplest_game_sync::cached::CachedModel;
#[allow(unused_imports)]
use crate::simplest_game_sync::delayed::DelayedModel;
use crate::simplest_game_sync::{CachedGameSync, DelayedGameSync};
use crate::state::{
    AppState, ClientInfo, GameInfo, GamePlayerInfo, ServerError, GAME_STATUS_PLAYING,
    GAME_STATUS_WAITING, PLAYER_STATUS_IDLE, PLAYER_STATUS_NET_SYNC,
};
#[allow(unused_imports)]
use crate::state::{
    found_addr, has_addr, players_view, ClientModel, GameModel, PlayerModel, ServerModel,
    CONN_TYPE_LAN,
};
use crate::text::{bytes_for_log, text_bytes};
#[allow(unused_imports)]
use crate::text::log_text;
use crate::wire::{
    buffer_len, buffer_of, read_string_bytes, take_u16_le, take_u32_le, take_u8,
};
#[allow(unused_imports)]
use crate::wire::{after_string, first_string, read_le16, read_le32};
use super::outputs::send_outputs;
#[allow(unused_imports)]
use super::outputs::{deliverable, delivery_result, output_actions};
use super::room::{
    duplicate_players, migrate_owner_if_needed, present_players, set_status_of_players,
    truncate_bytes, unready_players,
};
#[allow(unused_imports)]
use super::room::{
    lemma_lan_drop, lemma_lan_start, lemma_mark_keeps, lemma_not_ready_keeps, lemma_present_keeps,
    lemma_push_keeps, lemma_remove_keeps, lemma_update_keeps, low_byte, mark_players, new_owner,
    not_ready, present, truncated, with_present_owner,
};
use super::util::{
    broadcast_packet, broadcast_packet_to_game, make_player_information, make_update_game_status,
    resolve_in_game, send_packet, send_to_room, Action,
};
#[allow(unused_imports)]
use super::util::{
    actions_view, actions_wf, done, failed, other_players, resolved_in_game, status_of, to_all,
    to_game, to_one, to_room, yields, ActionModel, Outcome,
};

verus! {

/// Longest game name that is kept, in bytes.
pub const MAX_GAME_NAME: usize = 127;

/// Seats that a room announces.
pub const MAX_PLAYERS: u8 = 4;

/// A client as a player of a room.
pub open spec fn as_player(addr: u64, client: ClientModel) -> PlayerModel {
    PlayerModel {
        addr,
        username: client.username,
        user_id: client.user_id,
        conn_type: client.conn_type,
        input_stall_grace: None,
        last_game_data_recv: None,
        left_room: false,
        ready: false,
    }
}

/// A client as a player of a room.
fn player_of(addr: u64, client: &ClientInfo) -> (player: GamePlayerInfo)
    ensures
        player@ == as_player(addr, client@),
{
    GamePlayerInfo {
        addr,
        username: copy_bytes(client.username.as_slice()),
        user_id: client.user_id,
        conn_type: client.conn_type,
        input_stall_grace: None,
        last_game_data_recv: None,
        left_room: false,
        ready: false,
    }
}

/// The notice that a client joined a room.
pub open spec fn joined_body(client: ClientModel) -> Seq<u8> {
    join_game_body(client.username, client.ping, client.user_id, client.conn_type)
}

/// The game name of a request to open a room: the second string, cut.
pub open spec fn requested_name(data: Seq<u8>) -> Seq<u8> {
    truncated(first_string(after_string(data)), MAX_GAME_NAME as int)
}

/// A room that a client just opened.
pub open spec fn opened_game(
    game_id: u32,
    game_name: Seq<u8>,
    src: u64,
    client: ClientModel,
) -> GameModel {
    GameModel {
        game_id,
        game_name,
        emulator_name: client.emulator_name,
        owner: client.username,
        owner_user_id: client.user_id,
        num_players: 1,
        max_players: MAX_PLAYERS,
        game_status: GAME_STATUS_WAITING,
        players: seq![as_player(src, client)],
        sync: None,
    }
}

/// The client at `src` is listed in the room that it says it is in.
pub open spec fn in_a_room(m: ServerModel, src: u64) -> bool {
    resolved_in_game(m, src) is Some
}

/// The state once a room number that no longer holds is forgotten.
pub open spec fn without_stale_game(m: ServerModel, src: u64) -> ServerModel {
    match m.client(src) {
        Some(client) => if client.game_id is Some {
            m.with_client(src, ClientModel { game_id: None, ..client })
        } else {
            m
        },
        None => m,
    }
}

/// Opening a room. A client who is in a room is ignored. The room is announced
/// to all, and its creator is told that it is alone in it and that it joined.
pub open spec fn create_game_outcome(m: ServerModel, src: u64, data: Seq<u8>) -> Outcome<()> {
    if in_a_room(m, src) {
        done(m, Seq::empty())
    } else {
        let free = without_stale_game(m, src);
        let numbered = free.after_game_id();
        match free.client(src) {
            None => failed(numbered, Seq::empty(), ServerError::ClientNotFound),
            Some(client) => {
                let game_id = free.next_game_id;
                let game = opened_game(game_id, requested_name(data), src, client);
                let after = numbered.with_game(game_id, game).with_client(
                    src,
                    ClientModel { game_id: Some(game_id), ..client },
                );
                done(
                    after,
                    seq![
                        to_all(
                            after,
                            CREATE_GAME,
                            new_game_body(
                                client.username,
                                game.game_name,
                                client.emulator_name,
                                game_id,
                            ),
                        ),
                        to_all(after, UPDATE_GAME_STATUS, status_of(game)),
                        to_one(
                            src,
                            PLAYER_INFORMATION,
                            player_information_body(other_players(after, game.players, src)),
                        ),
                        to_one(src, JOIN_GAME, joined_body(client)),
                    ],
                )
            },
        }
    }
}

/// Reads the game name of a request to open a room.
fn read_game_name(data: &[u8]) -> (name: Vec<u8>)
    ensures
        name@ == requested_name(data@),
{
    let mut buf = buffer_of(data);
    let _empty: Vec<u8> = read_string_bytes(&mut buf);
    let game_name: Vec<u8> = read_string_bytes(&mut buf);
    let _empty_too: Vec<u8> = read_string_bytes(&mut buf);
    if buffer_len(&buf) >= 4 {
        let _filler: u32 = take_u32_le(&mut buf);
    }
    truncate_bytes(game_name, MAX_GAME_NAME)
}

/// Handles a request to open a room.
pub fn handle_create_game(
    message: ParsedMessage,
    src: u64,
    state: &mut AppState,
    out: &mut Vec<Action>,
) -> (result: Result<(), ServerError>)
    requires
        old(state)@.wf(),
    ensures
        final(state)@.wf(),
        yields(
            create_game_outcome(old(state)@, src, message.data@),
            final(state)@,
            old(out)@,
            final(out)@,
            result,
        ),
{
    let ghost m = state@;
    let ghost before = actions_view(out@);
    let ghost outcome = create_game_outcome(m, src, message.data@);
    assert(before + Seq::empty() =~= before);
    if resolve_in_game(state, src).is_some() {
        return Ok(());
    }
    // The room is gone, or the client is not in it: forget it.
    if let Some(client) = state.get_client(src) {
        if client.game_id.is_some() {
            let mut client = client;
            client.game_id = None;
            let _ = state.update_client(src, client);
        }
    }
    assert(state@ == without_stale_game(m, src));
    let ghost free = state@;
    let game_name: Vec<u8> = read_game_name(message.data.as_slice());
    let game_id: u32 = state.next_game_id();
    let client: ClientInfo = match state.get_client(src) {
        Some(client) => client,
        None => {
            return Err(ServerError::ClientNotFound);
        },
    };
    let mut players: Vec<GamePlayerInfo> = Vec::new();
    players.push(player_of(src, &client));
    let game = GameInfo {
        game_id,
        game_name,
        emulator_name: copy_bytes(client.emulator_name.as_slice()),
        owner: copy_bytes(client.username.as_slice()),
        owner_user_id: client.user_id,
        num_players: 1,
        max_players: MAX_PLAYERS,
        game_status: GAME_STATUS_WAITING,
        players,
        sync_manager: None,
    };
    assert(game@.players =~= seq![as_player(src, client@)]);
    let ghost opened = game@;
    let announcement: Vec<u8> = build_new_game_notification(
        client.username.as_slice(),
        game.game_name.as_slice(),
        client.emulator_name.as_slice(),
        game_id,
    );
    let status_data: Vec<u8> = make_update_game_status(&game);
    let response_data: Vec<u8> = build_join_game_packet(
        client.username.as_slice(),
        client.ping,
        client.user_id,
        client.conn_type,
    );
    state.add_game(game_id, game);
    let ghost joining = client@;
    let mut client = client;
    client.game_id = Some(game_id);
    let _ = state.update_client(src, client);
    assert(state@ == outcome.state);
    broadcast_packet(state, out, CREATE_GAME, announcement);
    broadcast_packet(state, out, UPDATE_GAME_STATUS, status_data);
    if let Some(game) = state.get_game(game_id) {
        let players_info: Vec<u8> = make_player_information(src, state, game);
        send_packet(out, src, PLAYER_INFORMATION, players_info);
    }
    send_packet(out, src, JOIN_GAME, response_data);
    assert(actions_view(out@) =~= before + outcome.actions);
    Ok(())
}

/// The body of a request to join a room is complete: a string, the room number,
/// a string and seven bytes.
pub open spec fn join_request_complete(data: Seq<u8>) -> bool {
    let rest = after_string(data);
    rest.len() >= 4 && after_string(rest.skip(4)).len() >= 7
}

/// The room number of a request to join.
pub open spec fn requested_game(data: Seq<u8>) -> u32 {
    read_le32(after_string(data)) as u32
}

/// The room once a client joined it. Who is listed already is not listed twice.
pub open spec fn joined_game(game: GameModel, src: u64, client: ClientModel) -> GameModel {
    if has_addr(game.players, src) {
        game
    } else {
        GameModel {
            num_players: (game.num_players + 1) as u8,
            players: game.players.push(as_player(src, client)),
            ..game
        }
    }
}

/// A request to join can be counted: the client is not in a room yet, and the
/// room it asks for has a seat number left for it.
pub open spec fn join_counts(m: ServerModel, src: u64, data: Seq<u8>) -> bool {
    match (m.client(src), m.game(requested_game(data))) {
        (Some(client), Some(game)) => client.game_id is Some || has_addr(game.players, src)
            || game.num_players < 255,
        _ => true,
    }
}

/// Joining a room. A client who is in a room, or says so, is ignored. All are
/// told of the new number of players, the client of the other players, and the
/// room of the client.
pub open spec fn join_game_outcome(m: ServerModel, src: u64, data: Seq<u8>) -> Outcome<()> {
    match m.client(src) {
        None => failed(m, Seq::empty(), ServerError::ClientNotFound),
        Some(client) => if client.game_id is Some {
            done(m, Seq::empty())
        } else {
            let game_id = requested_game(data);
            let entered = m.with_client(src, ClientModel { game_id: Some(game_id), ..client });
            match m.game(game_id) {
                None => failed(entered, Seq::empty(), ServerError::GameNotFound),
                Some(game) => {
                    let joined = joined_game(game, src, client);
                    let after = entered.with_game(game_id, joined);
                    done(
                        after,
                        seq![
                            to_all(after, UPDATE_GAME_STATUS, status_of(joined)),
                            to_one(
                                src,
                                PLAYER_INFORMATION,
                                player_information_body(other_players(after, joined.players, src)),
                            ),
                            to_room(joined, JOIN_GAME, joined_body(client)),
                        ],
                    )
                },
            }
        },
    }
}

/// Reads the room number of a request to join.
fn read_join_request(data: &[u8]) -> (game_id: u32)
    requires
        join_request_complete(data@),
    ensures
        game_id == requested_game(data@),
{
    let mut buf = buffer_of(data);
    let _empty: Vec<u8> = read_string_bytes(&mut buf);
    let game_id: u32 = take_u32_le(&mut buf);
    let _empty_too: Vec<u8> = read_string_bytes(&mut buf);
    let _filler: u32 = take_u32_le(&mut buf);
    let _more_filler: u16 = take_u16_le(&mut buf);
    let _conn_type: u8 = take_u8(&mut buf);
    game_id
}

/// Handles a request to join a room.
pub fn handle_join_game(
    message: ParsedMessage,
    src: u64,
    state: &mut AppState,
    out: &mut Vec<Action>,
) -> (result: Result<(), ServerError>)
    requires
        old(state)@.wf(),
        join_request_complete(message.data@),
        join_counts(old(state)@, src, message.data@),
    ensures
        final(state)@.wf(),
        yields(
            join_game_outcome(old(state)@, src, message.data@),
            final(state)@,
            old(out)@,
            final(out)@,
            result,
        ),
{
    let ghost m = state@;
    let ghost before = actions_view(out@);
    let ghost outcome = join_game_outcome(m, src, message.data@);
    assert(before + Seq::empty() =~= before);
    let game_id: u32 = read_join_request(message.data.as_slice());
    let client: ClientInfo = match state.get_client(src) {
        Some(client) => client,
        None => {
            return Err(ServerError::ClientNotFound);
        },
    };
    if client.game_id.is_some() {
        return Ok(());
    }
    let player: GamePlayerInfo = player_of(src, &client);
    let response_data: Vec<u8> = build_join_game_packet(
        client.username.as_slice(),
        client.ping,
        client.user_id,
        client.conn_type,
    );
    let ghost joining = client@;
    let mut client = client;
    client.game_id = Some(game_id);
    let _ = state.update_client(src, client);
    let ghost entered = state@;
    let mut game: GameInfo = match state.remove_game(game_id) {
        Some(game) => game,
        None => {
            assert(state@ =~= entered);
            return Err(ServerError::GameNotFound);
        },
    };
    let ghost old_game = game@;
    assert(m.games[game_id] == old_game);
    if game.slot_of(src).is_none() {
        game.num_players = game.num_players + 1;
        let ghost listed = game.players@;
        game.players.push(player);
        assert(players_view(game.players@) =~= players_view(listed).push(player@));
        proof {
            lemma_push_keeps(old_game.players, player@);
        }
    }
    assert(game@ =~= joined_game(old_game, src, joining));
    let ghost joined = game@;
    let status_data: Vec<u8> = make_update_game_status(&game);
    state.add_game(game_id, game);
    assert(state@ =~= outcome.state);
    assert(state@.wf());
    broadcast_packet(state, out, UPDATE_GAME_STATUS, status_data);
    if let Some(game) = state.get_game(game_id) {
        let players_info: Vec<u8> = make_player_information(src, state, game);
        send_packet(out, src, PLAYER_INFORMATION, players_info);
        send_to_room(game, out, JOIN_GAME, response_data);
    }
    assert(actions_view(out@) =~= before + outcome.actions);
    Ok(())
}

/// The room after its game is over: nobody plays, and who left during the game
/// is gone.
pub open spec fn ended_game(game: GameModel) -> GameModel {
    with_present_owner(
        GameModel {
            game_status: GAME_STATUS_WAITING,
            sync: None,
            players: present(game.players),
            num_players: low_byte(present(game.players).len()),
            ..game
        },
    )
}

/// Every player of a live game is dropped.
pub open spec fn all_dropped(sync: DelayedModel) -> bool {
    forall|p: int| 0 <= p < sync.players() ==> #[trigger] sync.inner.sync.dropped[p]
}

/// What follows once a player is marked as dropped: everybody who was listed and is
/// logged in is idle, the room is told who dropped, all are told what is `news` of
/// the room, and the frames that the drop releases are sent.
pub open spec fn drop_notices(
    m: ServerModel,
    game_id: u32,
    players: Seq<PlayerModel>,
    username: Seq<u8>,
    slot: int,
    sync: DelayedModel,
    news: Seq<ActionModel>,
) -> Outcome<bool> {
    let marked = mark_players(m, players, PLAYER_STATUS_IDLE, players.len());
    let outputs = sync.inner.drop_responses(slot);
    Outcome {
        state: marked,
        actions: to_game(
            marked,
            game_id,
            DROP_GAME,
            drop_game_body(username, low_byte((slot + 1) as nat)),
        ) + news + output_actions(
            players,
            outputs.take(deliverable(players.len(), outputs) as int),
        ),
        result: match delivery_result(players.len(), outputs) {
            Ok(_) => Ok(true),
            Err(error) => Err(error),
        },
    }
}

/// Dropping the player at `src` out of a live game. The slot stays, so that the
/// others keep advancing; when everybody dropped, the game is over and the room
/// waits again, or closes when everybody left it. Tells whether a game was
/// dropped.
pub open spec fn drop_outcome(m: ServerModel, game_id: u32, src: u64) -> Outcome<bool> {
    match (m.client(src), m.game(game_id)) {
        (None, _) => failed(m, Seq::empty(), ServerError::ClientNotFound),
        (Some(_), None) => Outcome { state: m, actions: Seq::empty(), result: Ok(false) },
        (Some(client), Some(game)) => match (game.sync, game.slot_of(src)) {
            (Some(sync), Some(slot)) => if slot >= sync.players() {
                failed(
                    m,
                    Seq::empty(),
                    ServerError::InvalidPlayerId {
                        player_id: slot as usize,
                        player_count: sync.players() as usize,
                    },
                )
            } else {
                let dropped = sync.after_drop(slot);
                if all_dropped(dropped) {
                    let ended = ended_game(game);
                    let over = m.with_game(game_id, ended);
                    let told = seq![to_all(over, UPDATE_GAME_STATUS, status_of(ended))];
                    if ended.players.len() == 0 {
                        let closed = over.without_game(game_id);
                        Outcome {
                            state: closed,
                            actions: told.push(
                                to_all(closed, CLOSE_GAME, close_game_body(game_id)),
                            ),
                            result: Ok(true),
                        }
                    } else {
                        drop_notices(
                            over,
                            game_id,
                            game.players,
                            client.username,
                            slot,
                            sync,
                            told,
                        )
                    }
                } else {
                    let going_on = m.with_game(
                        game_id,
                        GameModel { sync: Some(dropped), ..game },
                    );
                    drop_notices(
                        going_on,
                        game_id,
                        game.players,
                        client.username,
                        slot,
                        sync,
                        Seq::empty(),
                    )
                }
            },
            _ => Outcome { state: m, actions: Seq::empty(), result: Ok(false) },
        },
    }
}

/// Ends the game of a room in which everybody dropped.
fn end_game(game: &mut GameInfo)
    requires
        old(game)@.wf(),
    ensures
        final(game)@ == ended_game(old(game)@),
        final(game)@.wf(),
{
    proof {
        lemma_present_keeps(game@.players);
    }
    game.game_status = GAME_STATUS_WAITING;
    game.sync_manager = None;
    game.players = present_players(game.players.as_slice());
    game.num_players = (game.players.len() % 256) as u8;
    let _ = migrate_owner_if_needed(game);
}

/// Drops the player at `src` out of a live game but keeps the room open. Tells
/// whether a game was dropped; without a live game nothing is.
pub fn execute_drop_game(
    game_id: u32,
    src: u64,
    state: &mut AppState,
    out: &mut Vec<Action>,
) -> (result: Result<bool, ServerError>)
    requires
        old(state)@.wf(),
    ensures
        final(state)@.wf(),
        yields(
            drop_outcome(old(state)@, game_id, src),
            final(state)@,
            old(out)@,
            final(out)@,
            result,
        ),
{
    let ghost m = state@;
    let ghost before = actions_view(out@);
    let ghost outcome = drop_outcome(m, game_id, src);
    assert(before + Seq::empty() =~= before);
    let client: ClientInfo = match state.get_client(src) {
        Some(client) => client,
        None => {
            return Err(ServerError::ClientNotFound);
        },
    };
    let slot: usize = match state.get_game(game_id) {
        Some(game) => {
            if game.game_status != GAME_STATUS_PLAYING {
                return Ok(false);
            }
            match game.slot_of(src) {
                Some(slot) => slot,
                None => {
                    return Ok(false);
                },
            }
        },
        None => {
            return Ok(false);
        },
    };
    let mut game: GameInfo = match state.remove_game(game_id) {
        Some(game) => game,
        None => {
            return Ok(false);
        },
    };
    let ghost old_game = game@;
    assert(m.games[game_id] == old_game);
    let mut sync: DelayedGameSync = match game.sync_manager.take() {
        Some(sync) => sync,
        None => {
            assert(false);
            state.add_game(game_id, game);
            return Ok(false);
        },
    };
    let ghost old_sync = sync@;
    assert(old_game.sync == Some(old_sync));
    if slot >= sync.player_count() {
        let player_count: usize = sync.player_count();
        game.sync_manager = Some(sync);
        assert(game@ =~= old_game);
        state.add_game(game_id, game);
        assert(state@ =~= m);
        return Err(ServerError::InvalidPlayerId { player_id: slot, player_count });
    }
    proof {
        lemma_lan_drop(old_sync, slot as int);
    }
    let outputs = match sync.mark_player_dropped(slot) {
        Ok(outputs) => outputs,
        Err(_) => {
            assert(false);
            return Ok(false);
        },
    };
    // Outputs are addressed by the slots of the live game, so targets are looked
    // up in the list as it was before any compaction.
    let players: Vec<GamePlayerInfo> = duplicate_players(game.players.as_slice());
    let everybody: bool = sync.all_players_dropped();
    assert(everybody == all_dropped(old_sync.after_drop(slot as int)));
    game.sync_manager = Some(sync);
    assert(game@ =~= (GameModel { sync: Some(old_sync.after_drop(slot as int)), ..old_game }));
    let mut news: Option<Vec<u8>> = None;
    if everybody {
        end_game(&mut game);
        assert(game@ =~= ended_game(old_game));
        let ghost ended = game@;
        let status_data: Vec<u8> = make_update_game_status(&game);
        let empty: bool = game.players.len() == 0;
        state.add_game(game_id, game);
        assert(state@ =~= m.with_game(game_id, ended));
        if empty {
            broadcast_packet(state, out, UPDATE_GAME_STATUS, status_data);
            let _ = state.remove_game(game_id);
            broadcast_packet(state, out, CLOSE_GAME, build_close_game_packet(game_id));
            assert(actions_view(out@) =~= before + outcome.actions);
            return Ok(true);
        }
        news = Some(status_data);
    } else {
        state.add_game(game_id, game);
        assert(state@ =~= m.with_game(
            game_id,
            GameModel { sync: Some(old_sync.after_drop(slot as int)), ..old_game },
        ));
    }
    let ghost open = state@;
    assert(open.wf());
    proof {
        lemma_mark_keeps(open, old_game.players, PLAYER_STATUS_IDLE, old_game.players.len());
    }
    set_status_of_players(state, players.as_slice(), PLAYER_STATUS_IDLE);
    let number: u8 = ((slot as u64 + 1) % 256) as u8;
    let notification_data: Vec<u8> = build_drop_game_packet(client.username.as_slice(), number);
    broadcast_packet_to_game(state, out, game_id, DROP_GAME, notification_data);
    if let Some(status_data) = news {
        broadcast_packet(state, out, UPDATE_GAME_STATUS, status_data);
    }
    let sent = send_outputs(players.as_slice(), outputs.as_slice(), out);
    assert(actions_view(out@) =~= before + outcome.actions);
    match sent {
        Ok(_) => Ok(true),
        Err(error) => Err(error),
    }
}

/// Dropping out on request. Who is in no room is ignored.
pub open spec fn drop_game_outcome(m: ServerModel, src: u64) -> Outcome<()> {
    match resolved_in_game(m, src) {
        None => done(m, Seq::empty()),
        Some((game_id, _)) => {
            let dropped = drop_outcome(m, game_id, src);
            Outcome {
                state: dropped.state,
                actions: dropped.actions,
                result: match dropped.result {
                    Ok(_) => Ok(()),
                    Err(error) => Err(error),
                },
            }
        },
    }
}

/// Handles a request to drop out of a game.
pub fn handle_drop_game(
    _message: ParsedMessage,
    src: u64,
    state: &mut AppState,
    out: &mut Vec<Action>,
) -> (result: Result<(), ServerError>)
    requires
        old(state)@.wf(),
    ensures
        final(state)@.wf(),
        yields(
            drop_game_outcome(old(state)@, src),
            final(state)@,
            old(out)@,
            final(out)@,
            result,
        ),
{
    assert(actions_view(out@) + Seq::empty() =~= actions_view(out@));
    let game_id: u32 = match resolve_in_game(state, src) {
        Some((game_id, _)) => game_id,
        None => {
            return Ok(());
        },
    };
    match execute_drop_game(game_id, src, state, out) {
        Ok(_) => Ok(()),
        Err(error) => Err(error),
    }
}

/// The room once the player at `src` is marked as gone from a live game. The slot
/// does not move.
pub open spec fn tombstoned(game: GameModel, src: u64) -> GameModel {
    let players = match game.slot_of(src) {
        Some(slot) => game.players.update(
            slot,
            PlayerModel { left_room: true, ..game.players[slot] },
        ),
        None => game.players,
    };
    GameModel { players, num_players: low_byte(present(players).len()), ..game }
}

/// The room once the player at `src` is taken off its list.
pub open spec fn vacated(game: GameModel, src: u64) -> GameModel {
    let players = match game.slot_of(src) {
        Some(slot) => game.players.remove(slot),
        None => game.players,
    };
    GameModel { players, num_players: low_byte(players.len()), ..game }
}

/// The line that announces a new owner in the room, where the room exists.
pub open spec fn host_notice(
    m: ServerModel,
    game_id: u32,
    owner: Option<PlayerModel>,
) -> Seq<ActionModel> {
    match owner {
        Some(player) => to_game(
            m,
            game_id,
            GAME_CHAT,
            chat_body(
                encode_utf8("Server"@),
                encode_utf8(log_text(player.username) + " is now the room host"@),
            ),
        ),
        None => Seq::empty(),
    }
}

/// What is told when a player left a room: how many are in the room, and who left
/// it.
pub open spec fn quit_notices(
    m: ServerModel,
    game_id: u32,
    client: ClientModel,
) -> Seq<ActionModel> {
    let quit = quit_game_body(client.username, client.user_id);
    match m.game(game_id) {
        Some(game) => seq![
            to_all(m, UPDATE_GAME_STATUS, status_of(game)),
            to_room(game, QUIT_GAME, quit),
        ],
        None => seq![to_all(m, QUIT_GAME, quit)],
    }
}

/// What becomes of the room of a live game that the player at `src` leaves: its
/// slot stays and is dropped from the game, and ownership is handed over where it
/// has to be.
pub open spec fn live_room_left(
    lobby: ServerModel,
    game_id: u32,
    game: GameModel,
    src: u64,
) -> Outcome<bool> {
    drop_outcome(
        lobby.with_game(game_id, with_present_owner(tombstoned(game, src))),
        game_id,
        src,
    )
}

/// Leaving the room of a live game, for a client who is back in the lobby: its
/// slot stays, and is dropped from the game.
pub open spec fn quit_live_outcome(
    lobby: ServerModel,
    game_id: u32,
    game: GameModel,
    src: u64,
    client: ClientModel,
) -> Outcome<()> {
    let dropped = live_room_left(lobby, game_id, game, src);
    done(
        dropped.state,
        dropped.actions + quit_notices(dropped.state, game_id, client) + host_notice(
            dropped.state,
            game_id,
            new_owner(tombstoned(game, src)),
        ),
    )
}

/// Leaving a waiting room, for a client who is back in the lobby: it is taken off
/// the list, and the room closes when nobody is left.
pub open spec fn quit_waiting_outcome(
    lobby: ServerModel,
    game_id: u32,
    game: GameModel,
    src: u64,
    client: ClientModel,
) -> Outcome<()> {
    let left = vacated(game, src);
    if left.players.len() == 0 {
        let closed = lobby.without_game(game_id);
        done(
            closed,
            seq![
                to_all(closed, CLOSE_GAME, close_game_body(game_id)),
                to_all(closed, QUIT_GAME, quit_game_body(client.username, client.user_id)),
            ],
        )
    } else {
        let open = lobby.with_game(game_id, with_present_owner(left));
        done(
            open,
            quit_notices(open, game_id, client) + host_notice(open, game_id, new_owner(left)),
        )
    }
}

/// A client once it is back in the lobby.
pub open spec fn back_in_lobby(client: ClientModel) -> ClientModel {
    ClientModel { game_id: None, player_status: PLAYER_STATUS_IDLE, ..client }
}

/// Leaving a room. The client is back in the lobby. During a live game its slot
/// stays and is dropped from the game; otherwise it is taken off the list, and
/// the room closes when nobody is left. Where the owner left, the first player
/// who is still there takes over. Who is in no room is ignored.
pub open spec fn quit_game_outcome(m: ServerModel, src: u64) -> Outcome<()> {
    match m.client(src) {
        None => done(m, Seq::empty()),
        Some(client) => match client.game_id {
            None => done(m, Seq::empty()),
            Some(game_id) => match m.game(game_id) {
                None => done(m, Seq::empty()),
                Some(game) => {
                    let lobby = m.with_client(src, back_in_lobby(client));
                    if game.sync is Some {
                        quit_live_outcome(lobby, game_id, game, src, client)
                    } else {
                        quit_waiting_outcome(lobby, game_id, game, src, client)
                    }
                },
            },
        },
    }
}

/// Marks the player at `src` as gone from a live game.
fn tombstone(game: &mut GameInfo, src: u64)
    requires
        old(game)@.wf(),
    ensures
        final(game)@ == tombstoned(old(game)@, src),
        final(game)@.wf(),
{
    let ghost before = game@;
    if let Some(slot) = game.slot_of(src) {
        let mut player: GamePlayerInfo = game.players[slot].duplicate();
        player.left_room = true;
        proof {
            lemma_update_keeps(before.players, slot as int, player@);
        }
        let ghost listed = game.players@;
        game.players.set(slot, player);
        assert(players_view(game.players@) =~= before.players.update(slot as int, player@));
    }
    let kept: Vec<GamePlayerInfo> = present_players(game.players.as_slice());
    assert(players_view(kept@).len() == kept@.len());
    game.num_players = (kept.len() % 256) as u8;
}

/// Takes the player at `src` off the list of a waiting room.
fn vacate(game: &mut GameInfo, src: u64)
    requires
        old(game)@.wf(),
        old(game)@.sync is None,
    ensures
        final(game)@ == vacated(old(game)@, src),
        final(game)@.wf(),
{
    let ghost before = game@;
    if let Some(slot) = game.slot_of(src) {
        proof {
            lemma_remove_keeps(before.players, slot as int);
        }
        game.players.remove(slot);
        assert(players_view(game.players@) =~= before.players.remove(slot as int));
    }
    game.num_players = (game.players.len() % 256) as u8;
}

/// Tells that a player left a room.
fn send_quit_notices(state: &AppState, out: &mut Vec<Action>, game_id: u32, client: &ClientInfo)
    requires
        state@.wf(),
    ensures
        actions_view(final(out)@) == actions_view(old(out)@) + quit_notices(
            state@,
            game_id,
            client@,
        ),
        actions_wf(old(out)@) ==> actions_wf(final(out)@),
{
    let ghost before = actions_view(out@);
    let quit_data: Vec<u8> = build_quit_game_packet(client.username.as_slice(), client.user_id);
    match state.get_game(game_id) {
        Some(game) => {
            let status_data: Vec<u8> = make_update_game_status(game);
            broadcast_packet(state, out, UPDATE_GAME_STATUS, status_data);
            send_to_room(game, out, QUIT_GAME, quit_data);
        },
        None => {
            broadcast_packet(state, out, QUIT_GAME, quit_data);
        },
    }
    assert(actions_view(out@) =~= before + quit_notices(state@, game_id, client@));
}

/// Announces a new owner in the room.
fn send_host_notice(
    state: &AppState,
    out: &mut Vec<Action>,
    game_id: u32,
    name: Option<Vec<u8>>,
    Ghost(owner): Ghost<Option<PlayerModel>>,
)
    requires
        state@.wf(),
        match name {
            Some(bytes) => owner matches Some(player) && player.username == bytes@,
            None => owner is None,
        },
    ensures
        actions_view(final(out)@) == actions_view(old(out)@) + host_notice(state@, game_id, owner),
        actions_wf(old(out)@) ==> actions_wf(final(out)@),
{
    assert(actions_view(out@) + Seq::empty() =~= actions_view(out@));
    if let Some(bytes) = name {
        let text: String = bytes_for_log(bytes.as_slice()).concat(" is now the room host");
        let source: Vec<u8> = text_bytes("Server");
        let line: Vec<u8> = text_bytes(text.as_str());
        let chat: Vec<u8> = build_game_chat_packet(source.as_slice(), line.as_slice());
        broadcast_packet_to_game(state, out, game_id, GAME_CHAT, chat);
    }
}

/// Marks the player at `src` as gone from the room of a live game and drops its
/// slot. The list doubles as the slots of the game, so it must not be reindexed.
/// Returns the username of a new owner.
fn drop_out(
    src: u64,
    game_id: u32,
    game: GameInfo,
    state: &mut AppState,
    out: &mut Vec<Action>,
) -> (name: Option<Vec<u8>>)
    requires
        old(state)@.wf(),
        game@.wf(),
        game@.game_id == game_id,
    ensures
        final(state)@.wf(),
        ({
            let dropped = live_room_left(old(state)@, game_id, game@, src);
            &&& final(state)@ == dropped.state
            &&& actions_view(final(out)@) == actions_view(old(out)@) + dropped.actions
        }),
        actions_wf(old(out)@) ==> actions_wf(final(out)@),
        match name {
            Some(bytes) => new_owner(tombstoned(game@, src)) matches Some(player)
                && player.username == bytes@,
            None => new_owner(tombstoned(game@, src)) is None,
        },
{
    let mut game = game;
    tombstone(&mut game, src);
    let name: Option<Vec<u8>> = migrate_owner_if_needed(&mut game);
    state.add_game(game_id, game);
    let _ = execute_drop_game(game_id, src, state, out);
    name
}

/// Takes a client who is back in the lobby out of the room of a live game.
fn leave_live_room(
    src: u64,
    client: &ClientInfo,
    game_id: u32,
    game: GameInfo,
    state: &mut AppState,
    out: &mut Vec<Action>,
)
    requires
        old(state)@.wf(),
        game@.wf(),
        game@.game_id == game_id,
    ensures
        final(state)@.wf(),
        yields(
            quit_live_outcome(old(state)@, game_id, game@, src, client@),
            final(state)@,
            old(out)@,
            final(out)@,
            Ok::<(), ServerError>(()),
        ),
{
    let ghost before = actions_view(out@);
    let ghost outcome = quit_live_outcome(state@, game_id, game@, src, client@);
    let ghost left = tombstoned(game@, src);
    let new_name: Option<Vec<u8>> = drop_out(src, game_id, game, state, out);
    send_quit_notices(state, out, game_id, client);
    send_host_notice(state, out, game_id, new_name, Ghost(new_owner(left)));
    assert(actions_view(out@) =~= before + outcome.actions);
}

/// Takes a client who is back in the lobby out of a waiting room.
fn leave_waiting_room(
    src: u64,
    client: &ClientInfo,
    game_id: u32,
    game: GameInfo,
    state: &mut AppState,
    out: &mut Vec<Action>,
)
    requires
        old(state)@.wf(),
        game@.wf(),
        game@.sync is None,
        game@.game_id == game_id,
    ensures
        final(state)@.wf(),
        yields(
            quit_waiting_outcome(old(state)@, game_id, game@, src, client@),
            final(state)@,
            old(out)@,
            final(out)@,
            Ok::<(), ServerError>(()),
        ),
{
    let ghost lobby = state@;
    let ghost before = actions_view(out@);
    let ghost outcome = quit_waiting_outcome(lobby, game_id, game@, src, client@);
    let mut game = game;
    vacate(&mut game, src);
    let ghost left = game@;
    if game.players.len() == 0 {
        let _ = state.remove_game(game_id);
        let quit_data: Vec<u8> = build_quit_game_packet(
            client.username.as_slice(),
            client.user_id,
        );
        broadcast_packet(state, out, CLOSE_GAME, build_close_game_packet(game_id));
        broadcast_packet(state, out, QUIT_GAME, quit_data);
    } else {
        let new_name: Option<Vec<u8>> = migrate_owner_if_needed(&mut game);
        state.add_game(game_id, game);
        send_quit_notices(state, out, game_id, client);
        send_host_notice(state, out, game_id, new_name, Ghost(new_owner(left)));
    }
    assert(actions_view(out@) =~= before + outcome.actions);
}

/// What becomes of a live room does not depend on what the state holds under the
/// room's number.
proof fn lemma_live_ignores_old_room(
    lobby: ServerModel,
    game_id: u32,
    game: GameModel,
    src: u64,
)
    ensures
        live_room_left(lobby.without_game(game_id), game_id, game, src) == live_room_left(
            lobby,
            game_id,
            game,
            src,
        ),
{
    let live = with_present_owner(tombstoned(game, src));
    assert(lobby.without_game(game_id).with_game(game_id, live) =~= lobby.with_game(game_id, live));
}

/// The outcome of leaving does not depend on what the state holds under the
/// room's number.
proof fn lemma_quit_ignores_old_room(
    lobby: ServerModel,
    game_id: u32,
    game: GameModel,
    src: u64,
    client: ClientModel,
)
    ensures
        quit_live_outcome(lobby.without_game(game_id), game_id, game, src, client)
            == quit_live_outcome(lobby, game_id, game, src, client),
        quit_waiting_outcome(lobby.without_game(game_id), game_id, game, src, client)
            == quit_waiting_outcome(lobby, game_id, game, src, client),
{
    let bare = lobby.without_game(game_id);
    let waiting = with_present_owner(vacated(game, src));
    lemma_live_ignores_old_room(lobby, game_id, game, src);
    assert(bare.with_game(game_id, waiting) =~= lobby.with_game(game_id, waiting));
    assert(bare.without_game(game_id) =~= lobby.without_game(game_id));
}

/// Handles a request to leave a room.
pub fn handle_quit_game(
    _message: Vec<u8>,
    src: u64,
    state: &mut AppState,
    out: &mut Vec<Action>,
) -> (result: Result<(), ServerError>)
    requires
        old(state)@.wf(),
    ensures
        final(state)@.wf(),
        yields(
            quit_game_outcome(old(state)@, src),
            final(state)@,
            old(out)@,
            final(out)@,
            result,
        ),
{
    let ghost m = state@;
    assert(actions_view(out@) + Seq::empty() =~= actions_view(out@));
    let client: ClientInfo = match state.get_client(src) {
        Some(client) => client,
        None => {
            return Ok(());
        },
    };
    let game_id: u32 = match client.game_id {
        Some(game_id) => game_id,
        None => {
            return Ok(());
        },
    };
    let game: GameInfo = match state.remove_game(game_id) {
        Some(game) => game,
        None => {
            assert(state@ =~= m);
            return Ok(());
        },
    };
    assert(m.games[game_id] == game@);
    let mut returned: ClientInfo = client.duplicate();
    returned.game_id = None;
    returned.player_status = PLAYER_STATUS_IDLE;
    let _ = state.update_client(src, returned);
    let ghost lobby = m.with_client(src, back_in_lobby(client@));
    assert(state@ =~= lobby.without_game(game_id));
    proof {
        lemma_quit_ignores_old_room(lobby, game_id, game@, src, client@);
    }
    if game.sync_manager.is_some() {
        leave_live_room(src, &client, game_id, game, state, out);
    } else {
        leave_waiting_room(src, &client, game_id, game, state, out);
    }
    Ok(())
}

/// The body of a request to start a game is complete: a string and four bytes.
pub open spec fn start_request_complete(data: Seq<u8>) -> bool {
    after_string(data).len() >= 4
}

/// The frame synchronisation of a game that starts: every player's packets carry
/// as many frames as its connection type says, without startup delay.
pub open spec fn started_sync(players: Seq<PlayerModel>, disable_output_cache: bool) -> DelayedModel {
    let delays = Seq::new(players.len(), |i: int| players[i].conn_type as usize);
    DelayedModel::initial(
        CachedModel { disable_output_cache, ..CachedModel::initial(delays) },
        Seq::new(players.len(), |i: int| 0usize),
    )
}

/// The room once its game starts. Who left the room gets no slot, and nobody has
/// signalled yet that it is ready.
pub open spec fn started_game(game: GameModel, disable_output_cache: bool) -> GameModel {
    let players = not_ready(present(game.players));
    GameModel {
        players,
        num_players: low_byte(players.len()),
        game_status: GAME_STATUS_PLAYING,
        sync: Some(started_sync(players, disable_output_cache)),
        ..game
    }
}

/// The start notices: each player is told its delay, its number and how many
/// play.
pub open spec fn start_notices(players: Seq<PlayerModel>) -> Seq<ActionModel> {
    Seq::new(
        players.len(),
        |i: int|
            to_one(
                players[i].addr,
                START_GAME,
                start_game_body(
                    players[i].conn_type as u16,
                    low_byte((i + 1) as nat),
                    low_byte(players.len()),
                ),
            ),
    )
}

/// Starting a game. Only the owner, listed in its room, can start it; others are
/// ignored, and a game that is live already is only said to be.
pub open spec fn start_game_outcome(m: ServerModel, src: u64) -> Outcome<()> {
    match m.client(src) {
        None => failed(m, Seq::empty(), ServerError::ClientNotFound),
        Some(client) => match client.game_id {
            None => failed(m, Seq::empty(), ServerError::NotInGame),
            Some(game_id) => match m.game(game_id) {
                None => failed(m, Seq::empty(), ServerError::GameNotFound),
                Some(game) => if !has_addr(game.players, src) {
                    done(m, Seq::empty())
                } else if game.sync is Some {
                    done(
                        m,
                        seq![
                            to_room(
                                game,
                                GAME_CHAT,
                                chat_body(
                                    client.username,
                                    encode_utf8("Game is already started"@),
                                ),
                            ),
                        ],
                    )
                } else if game.owner_user_id != client.user_id {
                    done(m, Seq::empty())
                } else {
                    let started = started_game(game, m.config.disable_output_cache);
                    let after = mark_players(
                        m.with_game(game_id, started),
                        started.players,
                        PLAYER_STATUS_NET_SYNC,
                        started.players.len(),
                    );
                    done(
                        after,
                        seq![to_all(after, UPDATE_GAME_STATUS, status_of(started))]
                            + start_notices(started.players),
                    )
                },
            },
        },
    }
}

/// The delays of players: as many frames per packet as the connection type says.
fn delays_of(players: &[GamePlayerInfo]) -> (delays: Vec<usize>)
    ensures
        delays@ == Seq::new(
            players@.len(),
            |i: int| players_view(players@)[i].conn_type as usize,
        ),
{
    let mut delays: Vec<usize> = Vec::new();
    let mut i: usize = 0;
    while i < players.len()
        invariant
            i <= players@.len(),
            delays@.len() == i,
            forall|j: int| 0 <= j < i ==> #[trigger] delays@[j] == players@[j].conn_type as usize,
        decreases players.len() - i,
    {
        delays.push(players[i].conn_type as usize);
        i += 1;
    }
    assert(delays@ =~= Seq::new(
        players@.len(),
        |i: int| players_view(players@)[i].conn_type as usize,
    ));
    delays
}

/// Starts the game of a room.
fn begin_game(game: &mut GameInfo, disable_output_cache: bool)
    requires
        old(game)@.wf(),
    ensures
        final(game)@ == started_game(old(game)@, disable_output_cache),
        final(game)@.wf(),
{
    let ghost before = game@;
    let ghost kept = not_ready(present(before.players));
    proof {
        lemma_present_keeps(before.players);
        lemma_not_ready_keeps(present(before.players));
    }
    let present_now: Vec<GamePlayerInfo> = present_players(game.players.as_slice());
    game.players = unready_players(present_now.as_slice());
    assert(game@.players == kept);
    assert(game.players@.len() == kept.len());
    game.num_players = (game.players.len() % 256) as u8;
    let delays: Vec<usize> = delays_of(game.players.as_slice());
    game.game_status = GAME_STATUS_PLAYING;
    let cached: CachedGameSync = CachedGameSync::new(delays).with_output_cache_disabled(
        disable_output_cache,
    );
    let ghost inner = cached@;
    let sync: DelayedGameSync = DelayedGameSync::new(cached, 0);
    proof {
        assert(sync@ =~= started_sync(kept, disable_output_cache));
        assert forall|p: int| 0 <= p < inner.players() implies #[trigger] inner.sync.delays[p]
            == 1 by {
            assert(kept[p].conn_type == CONN_TYPE_LAN);
        }
        lemma_lan_start(inner, Seq::new(inner.players(), |i: int| 0usize));
    }
    game.sync_manager = Some(sync);
    assert(game@ =~= started_game(before, disable_output_cache));
}

/// Tells every player that the game starts.
fn send_start_notices(players: &[GamePlayerInfo], out: &mut Vec<Action>)
    ensures
        actions_view(final(out)@) == actions_view(old(out)@) + start_notices(
            players_view(players@),
        ),
        actions_wf(old(out)@) ==> actions_wf(final(out)@),
{
    let ghost before = actions_view(out@);
    let ghost all = players_view(players@);
    let total: u8 = (players.len() % 256) as u8;
    let mut i: usize = 0;
    assert(actions_view(out@) =~= before + start_notices(all).take(0));
    while i < players.len()
        invariant
            i <= players@.len(),
            all == players_view(players@),
            total == low_byte(players@.len()),
            actions_view(out@) == before + start_notices(all).take(i as int),
            actions_wf(old(out)@) ==> actions_wf(out@),
        decreases players.len() - i,
    {
        let player: &GamePlayerInfo = &players[i];
        assert(all[i as int] == player@);
        let number: u8 = ((i as u64 + 1) % 256) as u8;
        let data: Vec<u8> = build_start_game_packet(player.conn_type as u16, number, total);
        let ghost sent = actions_view(out@);
        send_packet(out, player.addr, START_GAME, data);
        assert(start_notices(all).take(i + 1) =~= start_notices(all).take(i as int).push(
            start_notices(all)[i as int],
        ));
        i += 1;
        assert(actions_view(out@) =~= before + start_notices(all).take(i as int));
    }
    assert(start_notices(all).take(i as int) =~= start_notices(all));
}

/// Reads a request to start a game.
fn read_start_request(data: &[u8]) -> (filler: u32)
    requires
        start_request_complete(data@),
    ensures
        filler == read_le32(after_string(data@)),
{
    let mut buf = buffer_of(data);
    let _empty: Vec<u8> = read_string_bytes(&mut buf);
    take_u32_le(&mut buf)
}

/// Handles a request to start the game of the sender's room.
pub fn handle_start_game(
    message: ParsedMessage,
    src: u64,
    state: &mut AppState,
    out: &mut Vec<Action>,
) -> (result: Result<(), ServerError>)
    requires
        old(state)@.wf(),
        start_request_complete(message.data@),
    ensures
        final(state)@.wf(),
        yields(
            start_game_outcome(old(state)@, src),
            final(state)@,
            old(out)@,
            final(out)@,
            result,
        ),
{
    let ghost m = state@;
    let ghost before = actions_view(out@);
    let ghost outcome = start_game_outcome(m, src);
    assert(before + Seq::empty() =~= before);
    let _filler: u32 = read_start_request(message.data.as_slice());
    let client: ClientInfo = match state.get_client(src) {
        Some(client) => client,
        None => {
            return Err(ServerError::ClientNotFound);
        },
    };
    let game_id: u32 = match client.game_id {
        Some(game_id) => game_id,
        None => {
            return Err(ServerError::NotInGame);
        },
    };
    match state.get_game(game_id) {
        Some(game) => {
            if game.slot_of(src).is_none() {
                return Ok(());
            }
            if game.sync_manager.is_some() {
                let line: Vec<u8> = text_bytes("Game is already started");
                let chat: Vec<u8> = build_game_chat_packet(
                    client.username.as_slice(),
                    line.as_slice(),
                );
                send_to_room(game, out, GAME_CHAT, chat);
                assert(actions_view(out@) =~= before + outcome.actions);
                return Ok(());
            }
            if game.owner_user_id != client.user_id {
                return Ok(());
            }
        },
        None => {
            return Err(ServerError::GameNotFound);
        },
    }
    let disable_output_cache: bool = state.config().disable_output_cache;
    let mut game: GameInfo = match state.remove_game(game_id) {
        Some(game) => game,
        None => {
            return Err(ServerError::GameNotFound);
        },
    };
    let ghost old_game = game@;
    assert(m.games[game_id] == old_game);
    begin_game(&mut game, disable_output_cache);
    let ghost started = game@;
    let players: Vec<GamePlayerInfo> = duplicate_players(game.players.as_slice());
    let status_data: Vec<u8> = make_update_game_status(&game);
    state.add_game(game_id, game);
    assert(state@ =~= m.with_game(game_id, started));
    proof {
        lemma_mark_keeps(
            state@,
            started.players,
            PLAYER_STATUS_NET_SYNC,
            started.players.len(),
        );
    }
    set_status_of_players(state, players.as_slice(), PLAYER_STATUS_NET_SYNC);
    broadcast_packet(state, out, UPDATE_GAME_STATUS, status_data);
    send_start_notices(players.as_slice(), out);
    assert(actions_view(out@) =~= before + outcome.actions);
    Ok(())
}

/// The body of a request to kick is complete: a string and the user number.
pub open spec fn kick_request_complete(data: Seq<u8>) -> bool {
    after_string(data).len() >= 2
}

/// The user number of a request to kick.
pub open spec fn kick_target(data: Seq<u8>) -> u16 {
    read_le16(after_string(data)) as u16
}

/// The client at `target` is in this room and listed there, and no game is live.
pub open spec fn kickable(m: ServerModel, game_id: u32, target: u64) -> bool {
    resolved_in_game(m, target) matches Some((room, _)) && room == game_id
        && m.games[game_id].sync is None
}

/// A kick can be counted: while a player with this number is listed in the
/// sender's waiting room, the room counts at least one player.
pub open spec fn kick_counts(m: ServerModel, src: u64, data: Seq<u8>) -> bool {
    match m.client(src) {
        Some(client) => match client.game_id {
            Some(game_id) => forall|target: u64|
                m.is_user(target, kick_target(data)) && #[trigger] kickable(m, game_id, target)
                    ==> m.games[game_id].num_players > 0,
            None => true,
        },
        None => true,
    }
}

/// The waiting room once the player at `target` is kicked.
pub open spec fn kicked_game(game: GameModel, target: u64) -> GameModel {
    match game.slot_of(target) {
        Some(slot) => GameModel {
            players: game.players.remove(slot),
            num_players: (game.num_players - 1) as u8,
            ..game
        },
        None => game,
    }
}

/// Kicking the client at `target` out of a waiting room: it is taken off the
/// list.
pub open spec fn kick_waiting_outcome(
    m: ServerModel,
    game_id: u32,
    game: GameModel,
    target: u64,
    kicked: ClientModel,
) -> Outcome<()> {
    let state = m.with_game(game_id, kicked_game(game, target));
    done(state, quit_notices(state, game_id, kicked))
}

/// Kicking the client at `target` out of the room of a live game. As when it
/// leaves by itself, it is back in the lobby, its slot stays and is dropped from
/// the game, and the game is over when nobody is left in it.
pub open spec fn kick_live_outcome(
    m: ServerModel,
    game_id: u32,
    game: GameModel,
    target: u64,
    kicked: ClientModel,
) -> Outcome<()> {
    quit_live_outcome(
        m.with_client(target, back_in_lobby(kicked)),
        game_id,
        game,
        target,
        kicked,
    )
}

/// Kicking the client that was `found` under the user number. Only the owner,
/// listed in its room, can kick, and only somebody who is in the same room;
/// anything else is ignored.
pub open spec fn kick_outcome(m: ServerModel, src: u64, found: Option<u64>) -> Outcome<()> {
    match m.client(src) {
        None => failed(m, Seq::empty(), ServerError::ClientNotFound),
        Some(client) => match client.game_id {
            None => failed(m, Seq::empty(), ServerError::NotInGame),
            Some(game_id) => match m.game(game_id) {
                None => failed(m, Seq::empty(), ServerError::GameNotFound),
                Some(game) => if !has_addr(game.players, src) || game.owner_user_id
                    != client.user_id {
                    done(m, Seq::empty())
                } else {
                    match found {
                        None => done(m, Seq::empty()),
                        Some(target) => match m.client(target) {
                            Some(kicked) => if kicked.game_id != Some(game_id) {
                                done(m, Seq::empty())
                            } else if game.sync is Some {
                                kick_live_outcome(m, game_id, game, target, kicked)
                            } else {
                                kick_waiting_outcome(m, game_id, game, target, kicked)
                            },
                            None => done(m, Seq::empty()),
                        },
                    }
                },
            },
        },
    }
}

/// Reads the user number of a request to kick.
fn read_kick_request(data: &[u8]) -> (user_id: u16)
    requires
        kick_request_complete(data@),
    ensures
        user_id == kick_target(data@),
{
    let mut buf = buffer_of(data);
    let _empty: Vec<u8> = read_string_bytes(&mut buf);
    take_u16_le(&mut buf)
}

/// Handles a request to kick a user out of the sender's room.
pub fn handle_kick_user(
    message: ParsedMessage,
    src: u64,
    state: &mut AppState,
    out: &mut Vec<Action>,
) -> (result: Result<(), ServerError>)
    requires
        old(state)@.wf(),
        kick_request_complete(message.data@),
        kick_counts(old(state)@, src, message.data@),
    ensures
        final(state)@.wf(),
        exists|found: Option<u64>|
            #![trigger kick_outcome(old(state)@, src, found)]
            old(state)@.user_id_found(kick_target(message.data@), found) && yields(
                kick_outcome(old(state)@, src, found),
                final(state)@,
                old(out)@,
                final(out)@,
                result,
            ),
{
    let user_id: u16 = read_kick_request(message.data.as_slice());
    let found: Option<(u64, ClientInfo)> = state.find_client_by_user_id(user_id);
    let target: Option<u64> = match &found {
        Some((addr, _)) => Some(*addr),
        None => None,
    };
    assert(target == found_addr(found));
    proof {
        assert(kick_outcome(old(state)@, src, target) == kick_outcome(old(state)@, src, target));
        if let Some(addr) = target {
            assert(state@.is_user(addr, kick_target(message.data@)));
            if let Some(client) = state@.client(src) {
                if let Some(game_id) = client.game_id {
                    assert(kickable(state@, game_id, addr) ==> state@.games[game_id].num_players
                        > 0);
                }
            }
        }
    }
    kick_found(src, target, state, out)
}

/// Kicks the client that was found, where the rules allow it.
pub fn kick_found(src: u64, found: Option<u64>, state: &mut AppState, out: &mut Vec<Action>) -> (result:
    Result<(), ServerError>)
    requires
        old(state)@.wf(),
        match (old(state)@.client(src), found) {
            (Some(client), Some(target)) => match client.game_id {
                Some(game_id) => kickable(old(state)@, game_id, target) ==> old(
                    state,
                )@.games[game_id].num_players > 0,
                None => true,
            },
            _ => true,
        },
    ensures
        final(state)@.wf(),
        yields(
            kick_outcome(old(state)@, src, found),
            final(state)@,
            old(out)@,
            final(out)@,
            result,
        ),
{
    let ghost m = state@;
    let ghost before = actions_view(out@);
    let ghost outcome = kick_outcome(m, src, found);
    assert(before + Seq::empty() =~= before);
    let requester: ClientInfo = match state.get_client(src) {
        Some(client) => client,
        None => {
            return Err(ServerError::ClientNotFound);
        },
    };
    let game_id: u32 = match requester.game_id {
        Some(game_id) => game_id,
        None => {
            return Err(ServerError::NotInGame);
        },
    };
    match state.get_game(game_id) {
        Some(game) => {
            if game.slot_of(src).is_none() || game.owner_user_id != requester.user_id {
                return Ok(());
            }
        },
        None => {
            return Err(ServerError::GameNotFound);
        },
    }
    let target: u64 = match found {
        Some(target) => target,
        None => {
            return Ok(());
        },
    };
    let kicked: ClientInfo = match state.get_client(target) {
        Some(client) => client,
        None => {
            return Ok(());
        },
    };
    match kicked.game_id {
        Some(room) => {
            if room != game_id {
                return Ok(());
            }
        },
        None => {
            return Ok(());
        },
    }
    let game: GameInfo = match state.remove_game(game_id) {
        Some(game) => game,
        None => {
            return Err(ServerError::GameNotFound);
        },
    };
    let ghost old_game = game@;
    assert(m.games[game_id] == old_game);
    if game.sync_manager.is_some() {
        let mut returned: ClientInfo = kicked.duplicate();
        returned.game_id = None;
        returned.player_status = PLAYER_STATUS_IDLE;
        let _ = state.update_client(target, returned);
        let ghost lobby = m.with_client(target, back_in_lobby(kicked@));
        assert(state@ =~= lobby.without_game(game_id));
        proof {
            lemma_quit_ignores_old_room(lobby, game_id, old_game, target, kicked@);
        }
        leave_live_room(target, &kicked, game_id, game, state, out);
    } else {
        let mut game = game;
        if let Some(slot) = game.slot_of(target) {
            assert(kickable(m, game_id, target));
            proof {
                lemma_remove_keeps(old_game.players, slot as int);
            }
            game.players.remove(slot);
            assert(players_view(game.players@) =~= old_game.players.remove(slot as int));
            game.num_players = game.num_players - 1;
        }
        assert(game@ =~= kicked_game(old_game, target));
        let ghost after = game@;
        state.add_game(game_id, game);
        assert(state@ =~= m.with_game(game_id, after));
        send_quit_notices(state, out, game_id, &kicked);
    }
    assert(actions_view(out@) =~= before + outcome.actions);
    Ok(())
}

} // verus!
