//! What the server does for each message of a client.

pub mod chat;
pub mod entry_laws;
pub mod game;
pub mod laws;
pub mod listing_laws;
pub mod membership_laws;
pub mod name_laws;
pub mod outputs;
pub mod play_laws;
pub mod ready_laws;
pub mod room;
pub mod room_laws;
pub mod sync;
pub mod user;
pub mod util;

use vstd::prelude::*;
use crate::kaillera::message_types::{
    CLIENT_KEEP_ALIVE, CLIENT_TO_SERVER_ACK, CREATE_GAME, DROP_GAME, GAME_CACHE, GAME_CHAT,
    GAME_DATA, GLOBAL_CHAT, JOIN_GAME, KICK_USER, QUIT_GAME, READY_TO_PLAY, SERVER_INFORMATION,
    SERVER_STATUS, SERVER_TO_CLIENT_ACK, START_GAME, USER_JOINED, USER_LOGIN, USER_QUIT,
};
use crate::kaillera::protocol::ParsedMessage;
#[allow(unused_imports)]
use crate::kaillera::protocol::MessageModel;
use crate::packet_util::{build_server_to_client_ack_packet, build_user_joined_packet};
#[allow(unused_imports)]
use crate::packet_util::{server_to_client_ack_body, user_joined_body};
use crate::bytes_util::copy_bytes;
use crate::state::{AppState, ClientInfo, ServerError};
#[allow(unused_imports)]
use crate::state::{has_addr, ClientModel, ServerModel};
use crate::wire::{buffer_len, buffer_of, read_string_bytes, take_u16_le, take_u32_le, take_u8};
use chat::{handle_game_chat, handle_global_chat};
#[allow(unused_imports)]
use chat::{game_chat_outcome, global_chat_outcome};
use game::{
    handle_create_game, handle_drop_game, handle_join_game, handle_kick_user, handle_quit_game,
    handle_start_game,
};
#[allow(unused_imports)]
use game::{
    create_game_outcome, drop_game_outcome, join_counts, join_game_outcome, join_request_complete,
    kick_counts, kick_outcome, kick_request_complete, kick_target, kickable, quit_game_outcome,
    start_game_outcome, start_request_complete,
};
use sync::{handle_game_cache, handle_game_data, handle_ready_to_play_signal};
#[allow(unused_imports)]
use sync::{
    game_cache_complete, game_cache_outcome, game_data_complete, game_data_outcome, ready_outcome,
};
use user::{handle_user_login, handle_user_quit};
#[allow(unused_imports)]
use user::{is_random_id, login_outcome, login_possible, login_request, user_quit_outcome};
use util::{
    broadcast_packet, make_server_information, make_server_status, send_packet, Action,
};
#[allow(unused_imports)]
use util::{
    actions_view, actions_wf, done, failed, is_server_status, strings_view, to_all, to_one,
    welcome_bodies, yields, ActionModel, Outcome,
};

verus! {

/// Round trips that are averaged for the login ping. The server answers with an
/// acknowledgement until there were this many; the one after completes the login.
pub const NUM_ACKS_FOR_SPEED_TEST: u16 = 3;

/// The time between two points, 0 if the second is not later.
pub open spec fn elapsed(from: u64, to: u64) -> nat {
    if to > from {
        (to - from) as nat
    } else {
        0
    }
}

/// Nanoseconds as milliseconds, to the nearest; what a ping can show at most.
pub open spec fn rounded_ms(nanos: nat) -> u32 {
    let ms = (nanos + 500_000) / 1_000_000;
    if ms > u32::MAX {
        u32::MAX
    } else {
        ms as u32
    }
}

/// A client once a handshake message came back: the round trip counts towards
/// the mean.
pub open spec fn measured(client: ClientModel, now: u64) -> ClientModel {
    match client.last_ping_time {
        Some(sent) => {
            let total = client.ping_total + elapsed(sent, now);
            let count = client.ack_count + 1;
            ClientModel {
                ping_total: total as u128,
                ack_count: count as u16,
                ping: rounded_ms((total / count) as nat),
                ..client
            }
        },
        None => client,
    }
}

/// One more handshake message can be counted.
pub open spec fn ack_counts(m: ServerModel, src: u64) -> bool {
    m.client(src) matches Some(client) ==> client.last_ping_time is None || client.ack_count
        < u16::MAX
}

/// The welcome message to a client.
pub open spec fn welcome_actions(m: ServerModel, src: u64) -> Seq<ActionModel> {
    welcome_bodies(m).map_values(|body: Seq<u8>| to_one(src, SERVER_INFORMATION, body))
}

/// The handshake. Each message that comes back is a measured round trip. The
/// first three are answered with another message; the one after completes the
/// login: the client gets the `snapshot` of the lobby, everybody hears that it
/// joined, and it is welcomed, in this order.
pub open spec fn ack_outcome(
    m: ServerModel,
    src: u64,
    now: u64,
    snapshot: Seq<u8>,
) -> Outcome<()> {
    match m.client(src) {
        None => failed(m, Seq::empty(), ServerError::ClientNotFound),
        Some(client) => {
            let known = measured(client, now);
            if known.ack_count > NUM_ACKS_FOR_SPEED_TEST {
                let after = m.with_client(src, known);
                done(
                    after,
                    seq![
                        to_one(src, SERVER_STATUS, snapshot),
                        to_all(
                            after,
                            USER_JOINED,
                            user_joined_body(
                                known.username,
                                known.user_id,
                                known.ping,
                                known.conn_type,
                            ),
                        ),
                    ] + welcome_actions(after, src),
                )
            } else {
                done(
                    m.with_client(src, ClientModel { last_ping_time: Some(now), ..known }),
                    seq![to_one(src, SERVER_TO_CLIENT_ACK, server_to_client_ack_body())],
                )
            }
        },
    }
}

/// `snapshot` is a snapshot of the lobby as the client at `src` is to get it when
/// its login is complete.
pub open spec fn ack_snapshot(m: ServerModel, src: u64, now: u64, snapshot: Seq<u8>) -> bool {
    match m.client(src) {
        Some(client) => measured(client, now).ack_count > NUM_ACKS_FOR_SPEED_TEST
            ==> is_server_status(m.with_client(src, measured(client, now)), src, snapshot),
        None => true,
    }
}

/// Takes a round trip into account.
fn measure(client: &mut ClientInfo, now: u64)
    requires
        old(client)@.wf(),
        old(client).last_ping_time is None || old(client).ack_count < u16::MAX,
    ensures
        final(client)@ == measured(old(client)@, now),
        final(client)@.wf(),
{
    if let Some(sent) = client.last_ping_time {
        let rtt: u64 = if now > sent {
            now - sent
        } else {
            0
        };
        assert(client.ack_count * u64::MAX + rtt <= (client.ack_count + 1) * u64::MAX)
            by (nonlinear_arith)
            requires
                rtt <= u64::MAX,
        ;
        assert((client.ack_count + 1) * u64::MAX <= 65536 * u64::MAX) by (nonlinear_arith)
            requires
                client.ack_count < 65536,
        ;
        client.ping_total = client.ping_total + rtt as u128;
        client.ack_count = client.ack_count + 1;
        let avg: u128 = client.ping_total / client.ack_count as u128;
        assert(avg <= client.ping_total) by (nonlinear_arith)
            requires
                avg == client.ping_total / client.ack_count as u128,
                client.ack_count > 0,
        ;
        let ms: u128 = (avg + 500_000) / 1_000_000;
        client.ping = if ms > u32::MAX as u128 {
            u32::MAX
        } else {
            ms as u32
        };
    }
}

/// Sends the welcome message.
fn send_welcome(src: u64, state: &AppState, out: &mut Vec<Action>)
    ensures
        actions_view(final(out)@) == actions_view(old(out)@) + welcome_actions(state@, src),
        actions_wf(old(out)@) ==> actions_wf(final(out)@),
{
    let ghost before = actions_view(out@);
    let ghost all = welcome_actions(state@, src);
    let bodies: Vec<Vec<u8>> = make_server_information(state);
    let mut i: usize = 0;
    assert(actions_view(out@) =~= before + all.take(0));
    while i < bodies.len()
        invariant
            i <= bodies@.len(),
            strings_view(bodies@) == welcome_bodies(state@),
            all == welcome_actions(state@, src),
            actions_view(out@) == before + all.take(i as int),
            actions_wf(old(out)@) ==> actions_wf(out@),
        decreases bodies.len() - i,
    {
        assert(strings_view(bodies@)[i as int] == bodies@[i as int]@);
        send_packet(out, src, SERVER_INFORMATION, copy_bytes(bodies[i].as_slice()));
        assert(all.take(i + 1) =~= all.take(i as int).push(all[i as int]));
        i += 1;
        assert(actions_view(out@) =~= before + all.take(i as int));
    }
    assert(all.take(i as int) =~= all);
}

/// Handles a handshake message that came back.
pub fn handle_client_to_server_ack(
    src: u64,
    now: u64,
    state: &mut AppState,
    out: &mut Vec<Action>,
) -> (result: Result<(), ServerError>)
    requires
        old(state)@.wf(),
        ack_counts(old(state)@, src),
    ensures
        final(state)@.wf(),
        exists|snapshot: Seq<u8>|
            #![trigger ack_outcome(old(state)@, src, now, snapshot)]
            ack_snapshot(old(state)@, src, now, snapshot) && yields(
                ack_outcome(old(state)@, src, now, snapshot),
                final(state)@,
                old(out)@,
                final(out)@,
                result,
            ),
{
    let ghost m = state@;
    let ghost before = actions_view(out@);
    assert(before + Seq::empty() =~= before);
    let mut client: ClientInfo = match state.get_client(src) {
        Some(client) => client,
        None => {
            proof {
                let snapshot = Seq::<u8>::empty();
                assert(yields(
                    ack_outcome(m, src, now, snapshot),
                    state@,
                    old(out)@,
                    out@,
                    Err::<(), ServerError>(ServerError::ClientNotFound),
                ));
            }
            return Err(ServerError::ClientNotFound);
        },
    };
    let ghost unmeasured = client@;
    measure(&mut client, now);
    let ghost known = client@;
    if client.ack_count > NUM_ACKS_FOR_SPEED_TEST {
        // Some clients treat the snapshot as the login boundary and only process
        // lobby messages after that point.
        let joined_data: Vec<u8> = build_user_joined_packet(
            client.username.as_slice(),
            client.user_id,
            client.ping,
            client.conn_type,
        );
        let _ = state.update_client(src, client);
        let snapshot: Vec<u8> = make_server_status(src, state);
        let ghost shown = snapshot@;
        send_packet(out, src, SERVER_STATUS, snapshot);
        broadcast_packet(state, out, USER_JOINED, joined_data);
        send_welcome(src, state, out);
        proof {
            let outcome = ack_outcome(m, src, now, shown);
            assert(actions_view(out@) =~= before + outcome.actions);
            assert(ack_snapshot(m, src, now, shown));
        }
        Ok(())
    } else {
        client.last_ping_time = Some(now);
        let _ = state.update_client(src, client);
        send_packet(out, src, SERVER_TO_CLIENT_ACK, build_server_to_client_ack_packet());
        proof {
            let shown = Seq::<u8>::empty();
            let outcome = ack_outcome(m, src, now, shown);
            assert(actions_view(out@) =~= before + outcome.actions);
        }
        Ok(())
    }
}

/// Handles a keep-alive: it only shows that the client is there, which every
/// packet does, so there is no answer.
pub fn handle_client_keep_alive(
    _message: ParsedMessage,
    _src: u64,
    state: &mut AppState,
    out: &mut Vec<Action>,
) -> (result: Result<(), ServerError>)
    ensures
        final(state)@ == old(state)@,
        final(out)@ == old(out)@,
        result == Ok::<(), ServerError>(()),
{
    Ok(())
}

/// The body of a message is complete for its type.
pub open spec fn is_complete(message_type: u8, data: Seq<u8>) -> bool {
    if message_type == JOIN_GAME {
        join_request_complete(data)
    } else if message_type == KICK_USER {
        kick_request_complete(data)
    } else if message_type == START_GAME {
        start_request_complete(data)
    } else if message_type == GAME_DATA {
        game_data_complete(data)
    } else if message_type == GAME_CACHE {
        game_cache_complete(data)
    } else if message_type == READY_TO_PLAY {
        data.len() >= 1
    } else {
        true
    }
}

/// What a message counts up or down stays in range.
pub open spec fn counts_fit(m: ServerModel, src: u64, message_type: u8, data: Seq<u8>) -> bool {
    if message_type == JOIN_GAME {
        join_counts(m, src, data)
    } else if message_type == KICK_USER {
        kick_counts(m, src, data)
    } else if message_type == CLIENT_TO_SERVER_ACK {
        ack_counts(m, src)
    } else {
        true
    }
}

/// A message that can be handled: its body is complete, and what it counts stays
/// in range.
pub open spec fn acceptable(m: ServerModel, src: u64, message: MessageModel) -> bool {
    is_complete(message.message_type, message.data) && counts_fit(
        m,
        src,
        message.message_type,
        message.data,
    )
}

/// `outcome` is what a message can lead to. Only a login, a completed handshake
/// and a kick can have several outcomes, as they depend on the order in which a
/// map is walked, and a login on a random identifier.
pub open spec fn possible_outcome(
    m: ServerModel,
    src: u64,
    message: MessageModel,
    now_secs: u64,
    now: u64,
    outcome: Outcome<()>,
) -> bool {
    let data = message.data;
    let kind = message.message_type;
    if kind == USER_QUIT {
        outcome == user_quit_outcome(m, src, data)
    } else if kind == USER_LOGIN {
        exists|found: Option<u64>, evicted: Option<u64>, session_id: u128|
            #![trigger login_outcome(m, src, login_request(data), now_secs, now, found, evicted, session_id)]
            login_possible(m, login_request(data).username, found, evicted) && is_random_id(
                session_id,
            ) && outcome == login_outcome(
                m,
                src,
                login_request(data),
                now_secs,
                now,
                found,
                evicted,
                session_id,
            )
    } else if kind == CLIENT_TO_SERVER_ACK {
        exists|snapshot: Seq<u8>|
            #![trigger ack_outcome(m, src, now, snapshot)]
            ack_snapshot(m, src, now, snapshot) && outcome == ack_outcome(m, src, now, snapshot)
    } else if kind == GLOBAL_CHAT {
        outcome == global_chat_outcome(m, src, data)
    } else if kind == GAME_CHAT {
        outcome == game_chat_outcome(m, src, data)
    } else if kind == CREATE_GAME {
        outcome == create_game_outcome(m, src, data)
    } else if kind == QUIT_GAME {
        outcome == quit_game_outcome(m, src)
    } else if kind == JOIN_GAME {
        outcome == join_game_outcome(m, src, data)
    } else if kind == KICK_USER {
        exists|found: Option<u64>|
            #![trigger kick_outcome(m, src, found)]
            m.user_id_found(kick_target(data), found) && outcome == kick_outcome(m, src, found)
    } else if kind == START_GAME {
        outcome == start_game_outcome(m, src)
    } else if kind == GAME_DATA {
        outcome == game_data_outcome(m, src, data, now)
    } else if kind == GAME_CACHE {
        outcome == game_cache_outcome(m, src, data, now)
    } else if kind == DROP_GAME {
        outcome == drop_game_outcome(m, src)
    } else if kind == READY_TO_PLAY {
        outcome == ready_outcome(m, src)
    } else {
        outcome == done(m, Seq::empty())
    }
}

/// Handles a message of the client at `src`. Keep-alives and messages of unknown
/// types do nothing.
pub fn handle_message(
    message: ParsedMessage,
    src: u64,
    now_secs: u64,
    now: u64,
    state: &mut AppState,
    out: &mut Vec<Action>,
) -> (result: Result<(), ServerError>)
    requires
        old(state)@.wf(),
        acceptable(old(state)@, src, message@),
    ensures
        final(state)@.wf(),
        exists|outcome: Outcome<()>|
            #![trigger yields(outcome, final(state)@, old(out)@, final(out)@, result)]
            possible_outcome(old(state)@, src, message@, now_secs, now, outcome) && yields(
                outcome,
                final(state)@,
                old(out)@,
                final(out)@,
                result,
            ),
{
    let kind: u8 = message.message_type;
    assert(actions_view(out@) + Seq::empty() =~= actions_view(out@));
    if kind == USER_QUIT {
        handle_user_quit(message, src, state, out)
    } else if kind == USER_LOGIN {
        handle_user_login(message, src, now_secs, now, state, out)
    } else if kind == CLIENT_TO_SERVER_ACK {
        handle_client_to_server_ack(src, now, state, out)
    } else if kind == GLOBAL_CHAT {
        handle_global_chat(message, src, state, out)
    } else if kind == GAME_CHAT {
        handle_game_chat(message, src, state, out)
    } else if kind == CLIENT_KEEP_ALIVE {
        let result = handle_client_keep_alive(message, src, state, out);
        assert(yields(done(old(state)@, Seq::empty()), state@, old(out)@, out@, result));
        result
    } else if kind == CREATE_GAME {
        handle_create_game(message, src, state, out)
    } else if kind == QUIT_GAME {
        handle_quit_game(message.data, src, state, out)
    } else if kind == JOIN_GAME {
        handle_join_game(message, src, state, out)
    } else if kind == KICK_USER {
        handle_kick_user(message, src, state, out)
    } else if kind == START_GAME {
        handle_start_game(message, src, state, out)
    } else if kind == GAME_DATA {
        handle_game_data(message, src, now, state, out)
    } else if kind == GAME_CACHE {
        handle_game_cache(message, src, now, state, out)
    } else if kind == DROP_GAME {
        handle_drop_game(message, src, state, out)
    } else if kind == READY_TO_PLAY {
        handle_ready_to_play_signal(message, src, state, out)
    } else {
        assert(yields(
            done(old(state)@, Seq::empty()),
            state@,
            old(out)@,
            out@,
            Ok::<(), ServerError>(()),
        ));
        Ok(())
    }
}

/// Whether the body of a message is complete for its type.
fn body_complete(message_type: u8, data: &[u8]) -> (complete: bool)
    ensures
        complete == is_complete(message_type, data@),
{
    let mut buf = buffer_of(data);
    if message_type == JOIN_GAME {
        let _empty: Vec<u8> = read_string_bytes(&mut buf);
        if buffer_len(&buf) < 4 {
            return false;
        }
        let _game_id: u32 = take_u32_le(&mut buf);
        let _empty_too: Vec<u8> = read_string_bytes(&mut buf);
        buffer_len(&buf) >= 7
    } else if message_type == KICK_USER {
        let _empty: Vec<u8> = read_string_bytes(&mut buf);
        buffer_len(&buf) >= 2
    } else if message_type == START_GAME {
        let _empty: Vec<u8> = read_string_bytes(&mut buf);
        buffer_len(&buf) >= 4
    } else if message_type == GAME_DATA {
        if buffer_len(&buf) < 3 {
            return false;
        }
        let _empty: u8 = take_u8(&mut buf);
        let length: usize = take_u16_le(&mut buf) as usize;
        buffer_len(&buf) >= length
    } else if message_type == GAME_CACHE {
        buffer_len(&buf) >= 2
    } else if message_type == READY_TO_PLAY {
        buffer_len(&buf) >= 1
    } else {
        true
    }
}

/// Whether a request to join can be counted.
fn join_fits(src: u64, data: &[u8], state: &AppState) -> (fits: bool)
    requires
        state@.wf(),
        join_request_complete(data@),
    ensures
        fits == join_counts(state@, src, data@),
{
    let mut buf = buffer_of(data);
    let _empty: Vec<u8> = read_string_bytes(&mut buf);
    let game_id: u32 = take_u32_le(&mut buf);
    match state.get_client(src) {
        Some(client) => match state.get_game(game_id) {
            Some(game) => client.game_id.is_some() || game.slot_of(src).is_some()
                || game.num_players < 255,
            None => true,
        },
        None => true,
    }
}

/// Whether a kick can be counted.
fn kick_fits(src: u64, data: &[u8], state: &AppState) -> (fits: bool)
    requires
        state@.wf(),
        kick_request_complete(data@),
    ensures
        fits == kick_counts(state@, src, data@),
{
    let ghost m = state@;
    let mut buf = buffer_of(data);
    let _empty: Vec<u8> = read_string_bytes(&mut buf);
    let user_id: u16 = take_u16_le(&mut buf);
    let game_id: u32 = match state.get_client(src) {
        Some(client) => match client.game_id {
            Some(game_id) => game_id,
            None => {
                return true;
            },
        },
        None => {
            return true;
        },
    };
    let game = match state.get_game(game_id) {
        Some(game) => game,
        None => {
            return true;
        },
    };
    if game.num_players > 0 || game.sync_manager.is_some() {
        return true;
    }
    let mut i: usize = 0;
    while i < game.players.len()
        invariant
            i <= game.players@.len(),
            m == state@,
            m.wf(),
            m.game(game_id) == Some(game@),
            m.games[game_id].num_players == 0,
            m.games[game_id].sync is None,
            m.client(src) matches Some(client) && client.game_id == Some(game_id),
            user_id == kick_target(data@),
            forall|j: int|
                0 <= j < i ==> !(m.is_user((#[trigger] game@.players[j]).addr, user_id)
                    && kickable(m, game_id, game@.players[j].addr)),
        decreases game.players.len() - i,
    {
        let addr: u64 = game.players[i].addr;
        assert(game@.players[i as int].addr == addr);
        assert(has_addr(game@.players, addr));
        if let Some(client) = state.get_client(addr) {
            let here: bool = match client.game_id {
                Some(room) => room == game_id,
                None => false,
            };
            if client.user_id == user_id && here {
                assert(m.is_user(addr, user_id) && kickable(m, game_id, addr));
                return false;
            }
        }
        i += 1;
    }
    proof {
        assert forall|target: u64|
            m.is_user(target, kick_target(data@)) && #[trigger] kickable(m, game_id, target) implies
            m.games[game_id].num_players > 0 by {
            assert(has_addr(game@.players, target));
            let j = choose|j: int| 0 <= j < game@.players.len() && #[trigger] game@.players[j].addr
                == target;
            assert(game@.players[j].addr == target);
        }
    }
    true
}

/// Whether a message can be handled.
pub fn accepts(message: &ParsedMessage, src: u64, state: &AppState) -> (accepted: bool)
    requires
        state@.wf(),
    ensures
        accepted == acceptable(state@, src, message@),
{
    let kind: u8 = message.message_type;
    if !body_complete(kind, message.data.as_slice()) {
        return false;
    }
    if kind == JOIN_GAME {
        join_fits(src, message.data.as_slice(), state)
    } else if kind == KICK_USER {
        kick_fits(src, message.data.as_slice(), state)
    } else if kind == CLIENT_TO_SERVER_ACK {
        match state.get_client(src) {
            Some(client) => client.last_ping_time.is_none() || client.ack_count < u16::MAX,
            None => true,
        }
    } else {
        true
    }
}

} // verus!
