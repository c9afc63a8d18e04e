//! What holds of requests as a whole: who may do what, and what stays as it is.

use vstd::prelude::*;
#[allow(unused_imports)]
use crate::kaillera::message_types::{
    CLIENT_KEEP_ALIVE, CLOSE_GAME, DROP_GAME, QUIT_GAME, SERVER_STATUS, SERVER_TO_CLIENT_ACK,
    START_GAME, UPDATE_GAME_STATUS, USER_JOINED, USER_LOGIN,
};
#[allow(unused_imports)]
use crate::kaillera::protocol::MessageModel;
#[allow(unused_imports)]
use crate::packet_util::{
    close_game_body, drop_game_body, quit_game_body, server_to_client_ack_body, start_game_body,
    user_joined_body,
};
#[allow(unused_imports)]
use crate::simplest_game_sync::cached::{
    lemma_after_drop_keeps, lemma_after_input_keeps, CachedModel,
};
#[allow(unused_imports)]
use crate::simplest_game_sync::delayed::DelayedModel;
#[allow(unused_imports)]
use crate::simplest_game_sync::types::{InputModel, OutputModel};
#[allow(unused_imports)]
use crate::state::{
    distinct_addrs, has_addr, lemma_slot_unique, next_number16, ClientModel, GameModel, PlayerModel,
    ServerError, ServerModel, CONN_TYPE_LAN, GAME_STATUS_PLAYING, GAME_STATUS_WAITING,
    PLAYER_STATUS_IDLE, PLAYER_STATUS_NET_SYNC,
};
#[allow(unused_imports)]
use super::game::{
    all_dropped, as_player, back_in_lobby, create_game_outcome, drop_notices, drop_outcome,
    ended_game, in_a_room, join_game_outcome, kick_outcome, kicked_game, live_room_left,
    quit_game_outcome, requested_game, start_game_outcome, started_game, tombstoned, vacated,
};
#[allow(unused_imports)]
use super::outputs::{lemma_deliverable, output_actions};
#[allow(unused_imports)]
use super::room::{
    is_present, lemma_lan_drop, lemma_lan_start, lemma_mark_keeps, lemma_mark_reaches,
    lemma_not_ready_keeps, lemma_present, lemma_present_keeps, lemma_update_keeps, low_byte,
    not_ready, owner_present, present, with_present_owner,
};
#[allow(unused_imports)]
use super::sync::{heard_from, input_outcome, signalled};
#[allow(unused_imports)]
use super::user::{is_alive, login_outcome, login_request, rejection, LoginModel};
#[allow(unused_imports)]
use super::util::{done, status_of, to_all, to_one, to_room, ActionModel, Outcome};
#[allow(unused_imports)]
use super::{ack_outcome, measured, possible_outcome, welcome_actions, NUM_ACKS_FOR_SPEED_TEST};

verus! {

/// Only LAN clients get in. Whatever else a login says, any other connection type
/// is answered with a rejection and changes nothing.
pub proof fn law_only_lan_gets_in(
    m: ServerModel,
    src: u64,
    message: MessageModel,
    now_secs: u64,
    now: u64,
    outcome: Outcome<()>,
)
    requires
        message.message_type == USER_LOGIN,
        login_request(message.data).conn_type != CONN_TYPE_LAN,
        possible_outcome(m, src, message, now_secs, now, outcome),
    ensures
        outcome == done(m, seq![rejection(src, "Only LAN connection type is allowed."@)]),
{
}

/// A login that is not refused lets the client in under the name it asked for,
/// idle, in no room, and with a fresh number; the last thing it is sent is the
/// first handshake message.
pub proof fn law_login_lets_in(
    m: ServerModel,
    src: u64,
    request: LoginModel,
    now_secs: u64,
    now: u64,
    found: Option<u64>,
    evicted: Option<u64>,
    session_id: u128,
)
    requires
        request.conn_type == CONN_TYPE_LAN,
        found matches Some(addr) ==> !is_alive(m.client(addr)->0, now_secs),
    ensures
        ({
            let outcome = login_outcome(
                m,
                src,
                request,
                now_secs,
                now,
                found,
                evicted,
                session_id,
            );
            &&& outcome.state.client(src) matches Some(client) && {
                &&& client.username == request.username
                &&& client.game_id is None
                &&& client.ack_count == 0
                &&& client.last_ping_time == Some(now)
                &&& outcome.state.next_user_id == next_number16(client.user_id)
            }
            &&& outcome.actions.last() == to_one(
                src,
                SERVER_TO_CLIENT_ACK,
                server_to_client_ack_body(),
            )
        }),
{
}

/// A handshake message that comes back counts one round trip. The first three are
/// answered with the next handshake message and nothing else.
pub proof fn law_handshake_goes_on(m: ServerModel, src: u64, now: u64, snapshot: Seq<u8>)
    requires
        m.client(src) matches Some(client) && client.last_ping_time is Some && client.ack_count
            < NUM_ACKS_FOR_SPEED_TEST,
    ensures
        ({
            let outcome = ack_outcome(m, src, now, snapshot);
            &&& outcome.actions == seq![
                to_one(src, SERVER_TO_CLIENT_ACK, server_to_client_ack_body()),
            ]
            &&& outcome.state.client(src) matches Some(client) && {
                &&& client.ack_count == m.client(src)->0.ack_count + 1
                &&& client.last_ping_time == Some(now)
            }
        }),
{
}

/// The fourth handshake message completes the login: first the client gets the
/// snapshot of the lobby, then everybody hears that it joined, then it is
/// welcomed.
pub proof fn law_handshake_completes(m: ServerModel, src: u64, now: u64, snapshot: Seq<u8>)
    requires
        m.client(src) matches Some(client) && client.last_ping_time is Some && client.ack_count
            == NUM_ACKS_FOR_SPEED_TEST,
    ensures
        ({
            let outcome = ack_outcome(m, src, now, snapshot);
            let client = measured(m.client(src)->0, now);
            &&& outcome.actions[0] == to_one(src, SERVER_STATUS, snapshot)
            &&& outcome.actions[1] == to_all(
                outcome.state,
                USER_JOINED,
                user_joined_body(client.username, client.user_id, client.ping, client.conn_type),
            )
            &&& outcome.actions.skip(2) == welcome_actions(outcome.state, src)
            &&& outcome.state.by_addr == m.by_addr
        }),
{
    let outcome = ack_outcome(m, src, now, snapshot);
    assert(outcome.actions.skip(2) =~= welcome_actions(outcome.state, src));
}

/// A keep-alive is never answered and changes nothing.
pub proof fn law_keep_alive_is_silent(
    m: ServerModel,
    src: u64,
    message: MessageModel,
    now_secs: u64,
    now: u64,
    outcome: Outcome<()>,
)
    requires
        message.message_type == CLIENT_KEEP_ALIVE,
        possible_outcome(m, src, message, now_secs, now, outcome),
    ensures
        outcome == done(m, Seq::empty()),
{
}

/// Who is in a room can open no other.
pub proof fn law_one_room_at_a_time(m: ServerModel, src: u64, data: Seq<u8>)
    requires
        in_a_room(m, src),
    ensures
        create_game_outcome(m, src, data) == done(m, Seq::empty()),
        join_game_outcome(m, src, data) == done(m, Seq::empty()),
{
}

/// Opening a room puts its creator in it, alone and as its owner.
pub proof fn law_creator_owns_the_room(m: ServerModel, src: u64, data: Seq<u8>)
    requires
        m.client(src) is Some,
        !in_a_room(m, src),
    ensures
        ({
            let after = create_game_outcome(m, src, data).state;
            let client = m.client(src)->0;
            &&& in_a_room(after, src)
            &&& after.client(src)->0.game_id == Some(m.next_game_id)
            &&& after.games[m.next_game_id].players == seq![
                as_player(src, ClientModel { game_id: None, ..client }),
            ]
            &&& after.games[m.next_game_id].owner_user_id == client.user_id
        }),
{
    let outcome = create_game_outcome(m, src, data);
    let after = outcome.state;
    let game = after.games[m.next_game_id];
    let client = m.client(src)->0;
    assert(game.players[0].addr == src);
    assert(has_addr(game.players, src));
    assert(as_player(src, ClientModel { game_id: None, ..client }) == as_player(src, client));
}

/// Joining a room lists the client there, once, and nobody else's slot moves.
pub proof fn law_joined_client_is_listed(m: ServerModel, src: u64, data: Seq<u8>)
    requires
        m.wf(),
        m.client(src) matches Some(client) && client.game_id is None,
        m.game(requested_game(data)) is Some,
    ensures
        ({
            let game_id = requested_game(data);
            let before = m.games[game_id];
            let after = join_game_outcome(m, src, data).state.games[game_id];
            &&& has_addr(after.players, src)
            &&& before.players.len() <= after.players.len()
            &&& after.players.take(before.players.len() as int) == before.players
            &&& after.sync == before.sync
        }),
{
    let game_id = requested_game(data);
    let before = m.games[game_id];
    let after = join_game_outcome(m, src, data).state.games[game_id];
    if !has_addr(before.players, src) {
        assert(after.players[before.players.len() as int].addr == src);
    }
    assert(after.players.take(before.players.len() as int) =~= before.players);
}

/// Only the owner starts a game: for anybody else nothing changes.
pub proof fn law_only_the_owner_starts(m: ServerModel, src: u64)
    requires
        m.client(src) matches Some(client) ==> (client.game_id matches Some(game_id) ==> (m.game(
            game_id,
        ) matches Some(game) ==> game.owner_user_id != client.user_id || !has_addr(
            game.players,
            src,
        ))),
    ensures
        start_game_outcome(m, src).state == m,
{
}

/// Only the owner kicks: for anybody else nothing changes and nobody hears of it.
pub proof fn law_only_the_owner_kicks(m: ServerModel, src: u64, found: Option<u64>)
    requires
        m.client(src) matches Some(client) ==> (client.game_id matches Some(game_id) ==> (m.game(
            game_id,
        ) matches Some(game) ==> game.owner_user_id != client.user_id || !has_addr(
            game.players,
            src,
        ))),
    ensures
        kick_outcome(m, src, found).state == m,
        kick_outcome(m, src, found).actions == Seq::<ActionModel>::empty(),
{
}

/// Whoever is marked as gone is not present, and nobody else becomes present.
pub proof fn lemma_tombstoned_stays(game: GameModel, src: u64)
    requires
        distinct_addrs(game.players),
    ensures
        forall|a: u64| #[trigger]
            is_present(tombstoned(game, src).players, a) ==> a != src && is_present(
                game.players,
                a,
            ),
{
    let after = tombstoned(game, src).players;
    assert forall|a: u64| #[trigger] is_present(after, a) implies a != src && is_present(
        game.players,
        a,
    ) by {
        let i = choose|i: int|
            0 <= i < after.len() && (#[trigger] after[i]).addr == a && !after[i].left_room;
        assert(game.players[i].addr == a);
        if a == src {
            lemma_slot_unique(game, src, i);
        }
        assert(!game.players[i].left_room);
    }
}

/// A slot is in the list and belongs to its address.
pub proof fn lemma_slot_of(game: GameModel, addr: u64)
    requires
        game.slot_of(addr) is Some,
    ensures
        0 <= game.slot_of(addr)->0 < game.players.len(),
        game.players[game.slot_of(addr)->0].addr == addr,
{
    let i = choose|i: int| 0 <= i < game.players.len() && #[trigger] game.players[i].addr == addr;
    assert(game.players[i].addr == addr);
}

/// Who is left on a list was on it before.
pub proof fn lemma_fewer(players: Seq<PlayerModel>, addr: u64)
    ensures
        is_present(present(players), addr) ==> is_present(players, addr),
{
    lemma_present(players);
    let kept = present(players);
    if is_present(kept, addr) {
        let i = choose|i: int|
            0 <= i < kept.len() && (#[trigger] kept[i]).addr == addr && !kept[i].left_room;
        assert(players.contains(kept[i]));
        let j = choose|j: int| 0 <= j < players.len() && players[j] == kept[i];
        assert(players[j].addr == addr && !players[j].left_room);
    }
}

/// Who is left on a list without one player was on it before.
pub proof fn lemma_fewer_by_one(players: Seq<PlayerModel>, slot: int, addr: u64)
    requires
        0 <= slot < players.len(),
    ensures
        is_present(players.remove(slot), addr) ==> is_present(players, addr),
        distinct_addrs(players) && players[slot].addr == addr ==> !has_addr(
            players.remove(slot),
            addr,
        ),
{
    let kept = players.remove(slot);
    if is_present(kept, addr) {
        let i = choose|i: int|
            0 <= i < kept.len() && (#[trigger] kept[i]).addr == addr && !kept[i].left_room;
        let j = if i < slot { i } else { i + 1 };
        assert(players[j] == kept[i]);
        assert(players[j].addr == addr && !players[j].left_room);
    }
    if distinct_addrs(players) && players[slot].addr == addr && has_addr(kept, addr) {
        let i = choose|i: int| 0 <= i < kept.len() && (#[trigger] kept[i]).addr == addr;
        let j = if i < slot { i } else { i + 1 };
        assert(players[j] == kept[i]);
        assert(players[j].addr == players[slot].addr);
    }
}

/// A game is live in a room.
pub open spec fn live_room(m: ServerModel, game_id: u32) -> bool {
    m.game(game_id) matches Some(game) && game.sync is Some
}

/// Two lists have the same players in the same slots; only who left may differ.
pub open spec fn same_slots(a: Seq<PlayerModel>, b: Seq<PlayerModel>) -> bool {
    &&& a.len() == b.len()
    &&& forall|i: int|
        0 <= i < a.len() ==> (#[trigger] a[i]).addr == b[i].addr && a[i].user_id == b[i].user_id
}

/// The notices of a drop change no room.
proof fn lemma_drop_notices_keep_rooms(
    m: ServerModel,
    game_id: u32,
    players: Seq<PlayerModel>,
    username: Seq<u8>,
    slot: int,
    sync: DelayedModel,
    news: Seq<ActionModel>,
)
    requires
        m.wf(),
    ensures
        drop_notices(m, game_id, players, username, slot, sync, news).state.games == m.games,
{
    lemma_mark_keeps(m, players, PLAYER_STATUS_IDLE, players.len());
}

/// After a drop the room is closed, or over with the players who are present, or
/// goes on with the same list.
pub proof fn lemma_drop_room(m: ServerModel, game_id: u32, src: u64)
    requires
        m.wf(),
        m.game(game_id) is Some,
    ensures
        ({
            let before = m.games[game_id];
            let after = drop_outcome(m, game_id, src).state;
            ||| after.game(game_id) is None
            ||| after.games[game_id] == ended_game(before)
            ||| after.games[game_id] == GameModel {
                sync: after.games[game_id].sync,
                ..before
            } && (before.sync is Some ==> after.games[game_id].sync is Some)
        }),
        forall|other: u32|
            other != game_id ==> #[trigger] drop_outcome(m, game_id, src).state.game(other)
                == m.game(other),
{
    let before = m.games[game_id];
    if let (Some(client), Some(sync), Some(slot)) = (
        m.client(src),
        before.sync,
        before.slot_of(src),
    ) {
        if slot < sync.players() {
            let dropped = sync.after_drop(slot);
            lemma_lan_drop(sync, slot);
            lemma_present_keeps(before.players);
            let going_on = m.with_game(game_id, GameModel { sync: Some(dropped), ..before });
            assert(going_on.games[game_id].wf());
            assert(going_on.wf());
            lemma_drop_notices_keep_rooms(
                going_on,
                game_id,
                before.players,
                client.username,
                slot,
                sync,
                Seq::empty(),
            );
            let ended = ended_game(before);
            let over = m.with_game(game_id, ended);
            assert(ended.wf());
            assert(over.wf());
            lemma_drop_notices_keep_rooms(
                over,
                game_id,
                before.players,
                client.username,
                slot,
                sync,
                seq![
                    to_all(
                        over,
                        UPDATE_GAME_STATUS,
                        status_of(ended),
                    ),
                ],
            );
        }
    }
}

/// What becomes of the room of a live game that the player at `who` leaves: no
/// other room changes; the player is not present any more; the room is owned by
/// somebody who is present, as long as somebody is; and while the game goes on,
/// every slot belongs to the same player.
pub proof fn lemma_live_room_left(lobby: ServerModel, room: u32, game: GameModel, who: u64)
    requires
        lobby.wf(),
        game.wf(),
        game.game_id == room,
    ensures
        ({
            let after = live_room_left(lobby, room, game, who).state;
            &&& after.game(room) matches Some(left) ==> {
                &&& !is_present(left.players, who)
                &&& forall|a: u64| #[trigger]
                    is_present(left.players, a) ==> is_present(game.players, a)
                &&& well_owned(left)
                &&& left.sync is Some ==> same_slots(left.players, game.players)
            }
            &&& forall|other: u32|
                other != room ==> #[trigger] after.game(other) == lobby.game(other)
        }),
{
    let gone = tombstoned(game, who);
    let left = with_present_owner(gone);
    lemma_tombstoned_wf(game, who);
    lemma_tombstoned_stays(game, who);
    lemma_handover(gone);
    assert(left.players == gone.players);
    assert(same_slots(left.players, game.players));
    let open = lobby.with_game(room, left);
    assert(open.wf());
    lemma_drop_room(open, room, who);
    let after = drop_outcome(open, room, who).state;
    assert forall|other: u32| other != room implies #[trigger] after.game(other) == lobby.game(
        other,
    ) by {
        assert(open.game(other) == lobby.game(other));
    }
    if let Some(end) = after.game(room) {
        if end == ended_game(left) {
            let over = GameModel {
                game_status: GAME_STATUS_WAITING,
                sync: None,
                players: present(left.players),
                num_players: low_byte(present(left.players).len()),
                ..left
            };
            lemma_handover(over);
            assert(end.players == present(left.players));
            assert forall|a: u64| #[trigger] is_present(end.players, a) implies a != who
                && is_present(game.players, a) by {
                lemma_fewer(left.players, a);
                assert(is_present(gone.players, a));
            }
        } else {
            assert(end.players == left.players);
            assert(end.owner_user_id == left.owner_user_id);
            assert(is_present(gone.players, who) == is_present(end.players, who));
            assert forall|a: u64| #[trigger] is_present(end.players, a) implies is_present(
                game.players,
                a,
            ) by {
                assert(is_present(gone.players, a));
            }
            if owner_present(left) {
                let i = choose|i: int|
                    0 <= i < present(left.players).len() && (
                    #[trigger] present(left.players)[i]).user_id == left.owner_user_id;
                assert(present(end.players)[i].user_id == end.owner_user_id);
            }
        }
    }
}

/// A client in the lobby keeps the server well-formed.
proof fn lemma_lobby_wf(m: ServerModel, src: u64)
    requires
        m.wf(),
        m.client(src) is Some,
    ensures
        m.with_client(src, back_in_lobby(m.client(src)->0)).wf(),
{
}

/// Slots do not move while a game is live: when a player drops out, leaves or is
/// kicked and the game goes on, every slot still belongs to the same player.
pub proof fn law_slots_do_not_move(m: ServerModel, src: u64, found: Option<u64>, game_id: u32)
    requires
        m.wf(),
        live_room(m, game_id),
    ensures
        ({
            let after = drop_outcome(m, game_id, src).state;
            live_room(after, game_id) ==> same_slots(
                after.games[game_id].players,
                m.games[game_id].players,
            )
        }),
        ({
            let after = quit_game_outcome(m, src).state;
            live_room(after, game_id) ==> same_slots(
                after.games[game_id].players,
                m.games[game_id].players,
            )
        }),
        ({
            let after = kick_outcome(m, src, found).state;
            live_room(after, game_id) ==> same_slots(
                after.games[game_id].players,
                m.games[game_id].players,
            )
        }),
{
    lemma_drop_room(m, game_id, src);
    if let Some(client) = m.client(src) {
        if let Some(room) = client.game_id {
            if let Some(game) = m.game(room) {
                lemma_lobby_wf(m, src);
                let lobby = m.with_client(src, back_in_lobby(client));
                lemma_live_room_left(lobby, room, game, src);
                let quit = quit_game_outcome(m, src).state;
                assert(room != game_id ==> quit.game(game_id) == m.game(game_id));
                if let Some(target) = found {
                    if let Some(kicked) = m.client(target) {
                        lemma_lobby_wf(m, target);
                        let freed = m.with_client(target, back_in_lobby(kicked));
                        lemma_live_room_left(freed, room, game, target);
                    }
                }
                let kick = kick_outcome(m, src, found).state;
                assert(room != game_id ==> kick.game(game_id) == m.game(game_id));
            }
        }
    }
}

/// A kick reaches only the kicker's own room: every other room stays as it is, and
/// every client but the kicked one stays as it is but for its status. In a
/// waiting room no client changes.
pub proof fn law_kick_stays_in_the_room(m: ServerModel, src: u64, found: Option<u64>, other: u32)
    requires
        m.wf(),
        m.client(src) matches Some(client) ==> client.game_id != Some(other),
    ensures
        ({
            let after = kick_outcome(m, src, found).state;
            &&& after.game(other) == m.game(other)
            &&& after.by_addr == m.by_addr
            &&& after.by_id.dom() == m.by_id.dom()
            &&& forall|id: u128|
                m.by_id.dom().contains(id) && (found matches Some(target) ==> m.by_addr[target]
                    != id) ==> (#[trigger] after.by_id[id]) == (ClientModel {
                    player_status: after.by_id[id].player_status,
                    ..m.by_id[id]
                })
            &&& (m.client(src) matches Some(client) && (client.game_id matches Some(room)
                && live_room(m, room))) || after.by_id == m.by_id
        }),
{
    if let Some(client) = m.client(src) {
        if let Some(room) = client.game_id {
            if let Some(game) = m.game(room) {
                if let Some(target) = found {
                    if let Some(kicked) = m.client(target) {
                        lemma_lobby_wf(m, target);
                        let lobby = m.with_client(target, back_in_lobby(kicked));
                        lemma_live_room_left(lobby, room, game, target);
                        lemma_tombstoned_wf(game, target);
                        let open = lobby.with_game(
                            room,
                            with_present_owner(tombstoned(game, target)),
                        );
                        assert(open.wf());
                        lemma_drop_sessions(open, room, target);
                        assert(open.by_id.dom() =~= m.by_id.dom());
                        assert(lobby.game(other) == m.game(other));
                    }
                }
            }
        }
    }
}

/// Whoever the owner kicks is not present in the room any more. In a live game
/// the kicked client is back in the lobby.
pub proof fn law_kicked_player_is_gone(m: ServerModel, src: u64, target: u64, game_id: u32)
    requires
        m.wf(),
        m.client(src) matches Some(client) && client.game_id == Some(game_id) && (m.game(
            game_id,
        ) matches Some(game) && has_addr(game.players, src) && game.owner_user_id
            == client.user_id),
        m.client(target) matches Some(kicked) && kicked.game_id == Some(game_id),
    ensures
        ({
            let after = kick_outcome(m, src, Some(target)).state;
            &&& after.game(game_id) matches Some(room) ==> !is_present(room.players, target)
            &&& live_room(m, game_id) ==> (after.client(target) matches Some(kicked)
                && kicked.game_id is None)
        }),
{
    let game = m.games[game_id];
    let kicked = m.client(target)->0;
    if game.sync is Some {
        lemma_lobby_wf(m, target);
        let lobby = m.with_client(target, back_in_lobby(kicked));
        lemma_live_room_left(lobby, game_id, game, target);
        lemma_tombstoned_wf(game, target);
        let open = lobby.with_game(game_id, with_present_owner(tombstoned(game, target)));
        assert(open.wf());
        lemma_drop_sessions(open, game_id, target);
        let id = m.by_addr[target];
        assert(open.by_id.dom().contains(id));
        assert(drop_outcome(open, game_id, target).state.by_id[id].game_id is None);
    } else {
        let after = kicked_game(game, target).players;
        match game.slot_of(target) {
            Some(slot) => {
                lemma_slot_of(game, target);
                lemma_fewer_by_one(game.players, slot, target);
            },
            None => {},
        }
        if is_present(after, target) {
            let i = choose|i: int|
                0 <= i < after.len() && (#[trigger] after[i]).addr == target
                    && !after[i].left_room;
            assert(has_addr(after, target));
        }
    }
}

/// Marking a player as gone keeps a room well-formed.
pub proof fn lemma_tombstoned_wf(game: GameModel, src: u64)
    requires
        game.wf(),
    ensures
        tombstoned(game, src).wf(),
        with_present_owner(tombstoned(game, src)).wf(),
{
    if let Some(slot) = game.slot_of(src) {
        lemma_update_keeps(
            game.players,
            slot,
            PlayerModel { left_room: true, ..game.players[slot] },
        );
    }
}

/// Noting that a player is ready keeps a room well-formed.
pub proof fn lemma_signalled_wf(game: GameModel, src: u64)
    requires
        game.wf(),
    ensures
        signalled(game, src).wf(),
{
    if let Some(slot) = game.slot_of(src) {
        lemma_update_keeps(
            game.players,
            slot,
            PlayerModel { ready: true, ..game.players[slot] },
        );
    }
}

/// A room is owned by somebody who is present, as long as somebody is.
pub open spec fn well_owned(game: GameModel) -> bool {
    owner_present(game) || present(game.players).len() == 0
}

/// Handing over ownership leaves a room well owned.
pub proof fn lemma_handover(game: GameModel)
    ensures
        well_owned(with_present_owner(game)),
{
    let after = with_present_owner(game);
    assert(after.players == game.players);
    if !owner_present(game) && present(game.players).len() > 0 {
        assert(present(after.players)[0].user_id == after.owner_user_id);
    }
}

/// When a player leaves, the room that stays behind is owned by somebody who is
/// present, as long as somebody is.
pub proof fn law_room_stays_owned(m: ServerModel, src: u64, game_id: u32)
    requires
        m.wf(),
        m.client(src) matches Some(client) && client.game_id == Some(game_id),
        m.game(game_id) is Some,
    ensures
        quit_game_outcome(m, src).state.game(game_id) matches Some(game) ==> well_owned(game),
{
    let client = m.client(src)->0;
    let game = m.games[game_id];
    if game.sync is Some {
        lemma_lobby_wf(m, src);
        lemma_live_room_left(m.with_client(src, back_in_lobby(client)), game_id, game, src);
    } else {
        lemma_handover(vacated(game, src));
    }
}

/// The last player to leave a waiting room closes it: the room is gone, and
/// everybody is told that it closed and who left.
pub proof fn law_empty_room_closes(m: ServerModel, src: u64, game_id: u32)
    requires
        m.client(src) matches Some(client) && client.game_id == Some(game_id),
        m.game(game_id) matches Some(game) && game.sync is None && game.players.len() == 1
            && game.players[0].addr == src,
    ensures
        ({
            let outcome = quit_game_outcome(m, src);
            let client = m.client(src)->0;
            &&& outcome.state.game(game_id) is None
            &&& outcome.actions == seq![
                to_all(outcome.state, CLOSE_GAME, close_game_body(game_id)),
                to_all(
                    outcome.state,
                    QUIT_GAME,
                    quit_game_body(client.username, client.user_id),
                ),
            ]
        }),
{
    let game = m.games[game_id];
    assert(game.players[0].addr == src);
    assert(has_addr(game.players, src));
    lemma_slot_unique(game, src, 0);
    assert(vacated(game, src).players.len() == 0);
}

/// When the owner starts the game of a waiting room, the game is live among the
/// players who are present: each has a slot and is told its number and how many
/// play, and who of them is logged in waits for the others to be ready.
pub proof fn law_owner_starts_the_game(m: ServerModel, src: u64, game_id: u32)
    requires
        m.wf(),
        m.client(src) matches Some(client) && client.game_id == Some(game_id) && (m.game(
            game_id,
        ) matches Some(game) && game.sync is None && has_addr(game.players, src)
            && game.owner_user_id == client.user_id && present(game.players).len()
            <= usize::MAX),
    ensures
        ({
            let outcome = start_game_outcome(m, src);
            let players = not_ready(present(m.games[game_id].players));
            &&& outcome.result is Ok
            &&& outcome.state.game(game_id) matches Some(game) && {
                &&& game.players == players
                &&& game.game_status == GAME_STATUS_PLAYING
                &&& game.sync matches Some(sync) && sync.players() == players.len()
            }
            &&& outcome.actions.len() == players.len() + 1
            &&& forall|i: int|
                0 <= i < players.len() ==> {
                    &&& m.client((#[trigger] players[i]).addr) is Some ==> (outcome.state.client(
                        players[i].addr,
                    ) matches Some(client) && client.player_status == PLAYER_STATUS_NET_SYNC)
                    &&& outcome.actions[i + 1] == to_one(
                        players[i].addr,
                        START_GAME,
                        start_game_body(
                            players[i].conn_type as u16,
                            low_byte((i + 1) as nat),
                            low_byte(players.len()),
                        ),
                    )
                }
        }),
{
    let game = m.games[game_id];
    let started = started_game(game, m.config.disable_output_cache);
    lemma_present_keeps(game.players);
    lemma_started_wf(m, game_id);
    let open = m.with_game(game_id, started);
    assert forall|i: int|
        0 <= i < started.players.len() && m.client(
            (#[trigger] started.players[i]).addr,
        ) is Some implies open.client(started.players[i].addr) is Some by {}
    lemma_mark_reaches(open, started.players, PLAYER_STATUS_NET_SYNC, started.players.len());
    lemma_mark_keeps(open, started.players, PLAYER_STATUS_NET_SYNC, started.players.len());
}

/// Starting a game keeps the server well-formed.
pub proof fn lemma_started_wf(m: ServerModel, game_id: u32)
    requires
        m.wf(),
        m.game(game_id) is Some,
        present(m.games[game_id].players).len() <= usize::MAX,
    ensures
        m.with_game(game_id, started_game(m.games[game_id], m.config.disable_output_cache)).wf(),
{
    let game = m.games[game_id];
    let players = not_ready(present(game.players));
    lemma_present_keeps(game.players);
    lemma_not_ready_keeps(present(game.players));
    lemma_lan_start(
        CachedModel {
            disable_output_cache: m.config.disable_output_cache,
            ..CachedModel::initial(Seq::new(players.len(), |i: int| players[i].conn_type as usize))
        },
        Seq::new(players.len(), |i: int| 0usize),
    );
}

/// When the last player drops out, the game is over. The room waits again with
/// the players who are present, or it is gone when nobody is.
pub proof fn law_game_over(m: ServerModel, src: u64, game_id: u32)
    requires
        m.wf(),
        m.client(src) is Some,
        m.game(game_id) matches Some(game) && (game.sync matches Some(sync) && (game.slot_of(
            src,
        ) matches Some(slot) && slot < sync.players() && all_dropped(sync.after_drop(slot)))),
    ensures
        ({
            let after = drop_outcome(m, game_id, src).state;
            let players = present(m.games[game_id].players);
            match after.game(game_id) {
                Some(game) => {
                    &&& players.len() > 0
                    &&& game.players == players
                    &&& game.num_players == low_byte(players.len())
                    &&& game.sync is None
                    &&& game.game_status == GAME_STATUS_WAITING
                    &&& well_owned(game)
                },
                None => players.len() == 0,
            }
        }),
{
    let game = m.games[game_id];
    let sync = game.sync->0;
    let slot = game.slot_of(src)->0;
    let players = present(game.players);
    let ended = ended_game(game);
    lemma_present_keeps(game.players);
    assert(ended.wf());
    let over = m.with_game(game_id, ended);
    assert(over.wf());
    lemma_drop_notices_keep_rooms(
        over,
        game_id,
        game.players,
        (m.client(src)->0).username,
        slot,
        sync,
        seq![to_all(over, UPDATE_GAME_STATUS, status_of(ended))],
    );
    lemma_handover(
        GameModel {
            game_status: GAME_STATUS_WAITING,
            sync: None,
            players,
            num_players: low_byte(players.len()),
            ..game
        },
    );
}

/// What is sent goes to the players that it was combined for.
proof fn lemma_responses_in_range(m: CachedModel, outputs: Seq<OutputModel>, n: nat)
    requires
        forall|i: int| 0 <= i < outputs.len() ==> (#[trigger] outputs[i]).player_id < n,
    ensures
        forall|i: int|
            0 <= i < m.responses(outputs).len() ==> (#[trigger] m.responses(
                outputs,
            )[i]).player_id < n,
    decreases outputs.len(),
{
    if outputs.len() > 0 {
        let front = outputs.drop_last();
        assert forall|i: int| 0 <= i < front.len() implies (#[trigger] front[i]).player_id < n by {
            assert(front[i] == outputs[i]);
        }
        lemma_responses_in_range(m, front, n);
        assert(outputs[outputs.len() - 1].player_id < n);
    }
}

/// A live game never lacks a player: whatever input comes, everything that it
/// releases has somebody in the room to go to, and is sent there.
pub proof fn law_every_output_is_delivered(
    m: ServerModel,
    src: u64,
    game_id: u32,
    slot: int,
    input: InputModel,
    now: u64,
)
    requires
        m.wf(),
        live_room(m, game_id),
        ({
            let sync = m.games[game_id].sync->0;
            0 <= slot < sync.players() && sync.resolved(slot, input) is Some
        }),
    ensures
        ({
            let game = m.games[game_id];
            let outcome = input_outcome(m, src, game_id, slot, input, now);
            &&& outcome.result is Ok
            &&& outcome.actions == output_actions(
                game.players,
                (game.sync->0).input_responses(slot, input),
            )
        }),
{
    let game = m.games[game_id];
    let sync = game.sync->0;
    let n = game.players.len();
    assert(game.wf());
    let bytes = sync.resolved(slot, input)->0;
    let data = InputModel::GameData(sync.released(slot, bytes));
    lemma_after_input_keeps(sync.inner, slot, data);
    let raw = sync.inner.raw_outputs(slot, data);
    lemma_responses_in_range(sync.inner.combined(slot, data), raw, n);
    let sent = sync.input_responses(slot, input);
    assert forall|i: int| 0 <= i < sent.len() implies (#[trigger] sent[i]).player_id < n by {}
    lemma_deliverable(n, sent, sent.len() as int);
    assert(output_actions(heard_from(game, slot, now).players, sent) =~= output_actions(
        game.players,
        sent,
    ));
}

/// A drop never fails, whoever of the others is logged in. While somebody is in
/// the room, the room is told who dropped; when that was the last one, everybody is
/// told that the room waits again; and every frame that the drop releases goes out,
/// each to the player it was combined for. The room is gone only when everybody
/// dropped and left.
pub proof fn law_a_drop_sends_what_it_releases(m: ServerModel, game_id: u32, src: u64)
    requires
        m.wf(),
        m.client(src) is Some,
        m.game(game_id) matches Some(game) && (game.sync matches Some(sync) && (game.slot_of(
            src,
        ) matches Some(slot) && slot < sync.players())),
    ensures
        ({
            let game = m.games[game_id];
            let sync = game.sync->0;
            let slot = game.slot_of(src)->0;
            let outcome = drop_outcome(m, game_id, src);
            let over = all_dropped(sync.after_drop(slot));
            &&& outcome.result == Ok::<bool, ServerError>(true)
            &&& outcome.state.game(game_id) is None <==> over && present(game.players).len() == 0
            &&& outcome.state.game(game_id) matches Some(room) ==> outcome.actions == seq![
                to_room(
                    room,
                    DROP_GAME,
                    drop_game_body((m.client(src)->0).username, low_byte((slot + 1) as nat)),
                ),
            ] + (if over {
                seq![to_all(outcome.state, UPDATE_GAME_STATUS, status_of(room))]
            } else {
                Seq::empty()
            }) + output_actions(game.players, sync.inner.drop_responses(slot))
        }),
{
    let game = m.games[game_id];
    let sync = game.sync->0;
    let slot = game.slot_of(src)->0;
    let n = game.players.len();
    assert(game.wf());
    lemma_slot_of(game, src);
    lemma_after_drop_keeps(sync.inner, slot);
    let released = sync.inner.sync.with_dropped(slot).drain_outputs();
    lemma_responses_in_range(sync.inner.drop_combined(slot), released, n);
    let dropped = sync.inner.drop_responses(slot);
    lemma_deliverable(n, dropped, dropped.len() as int);
    assert(dropped.take(dropped.len() as int) =~= dropped);
    if all_dropped(sync.after_drop(slot)) {
        lemma_present_keeps(game.players);
        let ended = ended_game(game);
        let over = m.with_game(game_id, ended);
        assert(ended.wf());
        assert(over.wf());
        lemma_mark_keeps(over, game.players, PLAYER_STATUS_IDLE, n);
    } else {
        let going_on = m.with_game(
            game_id,
            GameModel { sync: Some(sync.after_drop(slot)), ..game },
        );
        lemma_lan_drop(sync, slot);
        assert(going_on.games[game_id].wf());
        assert(going_on.wf());
        lemma_mark_keeps(going_on, game.players, PLAYER_STATUS_IDLE, n);
    }
}

/// Leaving a room never fails, and puts the client back into the lobby, idle.
pub proof fn law_quit_returns_to_the_lobby(m: ServerModel, src: u64)
    requires
        m.wf(),
        m.client(src) matches Some(client) && (client.game_id matches Some(game_id) && m.game(
            game_id,
        ) is Some),
    ensures
        quit_game_outcome(m, src).result is Ok,
        quit_game_outcome(m, src).state.client(src) matches Some(client) && client.game_id is None
            && client.player_status == PLAYER_STATUS_IDLE,
{
    let client = m.client(src)->0;
    let game_id = client.game_id->0;
    let game = m.games[game_id];
    let lobby = m.with_client(src, back_in_lobby(client));
    if game.sync is Some {
        let left = with_present_owner(tombstoned(game, src));
        lemma_tombstoned_wf(game, src);
        let open = lobby.with_game(game_id, left);
        assert(open.wf());
        assert(open.client(src) == Some(back_in_lobby(client)));
        lemma_drop_keeps_clients(open, game_id, src, src);
    }
}

/// A drop changes nothing of any session but its status, and nothing of the
/// configuration.
pub proof fn lemma_drop_sessions(m: ServerModel, game_id: u32, src: u64)
    requires
        m.wf(),
    ensures
        ({
            let after = drop_outcome(m, game_id, src).state;
            &&& after.by_addr == m.by_addr
            &&& after.by_id.dom() == m.by_id.dom()
            &&& after.config == m.config
            &&& forall|id: u128|
                m.by_id.dom().contains(id) ==> {
                    let status = (#[trigger] after.by_id[id]).player_status;
                    &&& after.by_id[id] == (ClientModel { player_status: status, ..m.by_id[id] })
                    &&& status == m.by_id[id].player_status || status == PLAYER_STATUS_IDLE
                }
        }),
{
    if let (Some(client), Some(game)) = (m.client(src), m.game(game_id)) {
        if let (Some(sync), Some(slot)) = (game.sync, game.slot_of(src)) {
            if slot < sync.players() {
                let dropped = sync.after_drop(slot);
                lemma_lan_drop(sync, slot);
                lemma_present_keeps(game.players);
                let going_on = m.with_game(game_id, GameModel { sync: Some(dropped), ..game });
                assert(going_on.games[game_id].wf());
                assert(going_on.wf());
                lemma_mark_keeps(going_on, game.players, PLAYER_STATUS_IDLE, game.players.len());
                let over = m.with_game(game_id, ended_game(game));
                assert(ended_game(game).wf());
                assert(over.wf());
                lemma_mark_keeps(over, game.players, PLAYER_STATUS_IDLE, game.players.len());
            }
        }
    }
}

/// A drop changes nothing of a client but its status.
pub proof fn lemma_drop_keeps_clients(m: ServerModel, game_id: u32, src: u64, addr: u64)
    requires
        m.wf(),
        m.client(addr) is Some,
    ensures
        drop_outcome(m, game_id, src).state.client(addr) matches Some(client) && client
            == (ClientModel { player_status: client.player_status, ..m.client(addr)->0 }) && (
        client.player_status == (m.client(addr)->0).player_status || client.player_status
            == PLAYER_STATUS_IDLE),
{
    lemma_drop_sessions(m, game_id, src);
    assert(m.by_id.dom().contains(m.by_addr[addr]));
    assert(drop_outcome(m, game_id, src).state.by_id[m.by_addr[addr]].game_id
        == m.by_id[m.by_addr[addr]].game_id);
}

} // verus!
