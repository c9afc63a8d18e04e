//! Who is in which room: nobody is present in a room without knowing it, and so
//! nobody in two.

use vstd::prelude::*;
#[allow(unused_imports)]
use crate::kaillera::message_types::{CLIENT_TO_SERVER_ACK, KICK_USER, USER_LOGIN};
#[allow(unused_imports)]
use crate::kaillera::protocol::MessageModel;
#[allow(unused_imports)]
use crate::simplest_game_sync::types::InputModel;
#[allow(unused_imports)]
use crate::state::{
    distinct_addrs, has_addr, ClientModel, GameModel, PlayerModel, ServerModel,
    PLAYER_STATUS_NET_SYNC, PLAYER_STATUS_PLAYING,
};
#[allow(unused_imports)]
use super::game::{
    back_in_lobby, create_game_outcome, drop_outcome, ended_game, in_a_room, join_game_outcome,
    joined_game, kick_outcome, kick_target, kicked_game, live_room_left, quit_game_outcome,
    requested_game, start_game_outcome, started_game, tombstoned, vacated, without_stale_game,
};
#[allow(unused_imports)]
use super::laws::{
    lemma_drop_keeps_clients, lemma_drop_room, lemma_drop_sessions, lemma_fewer,
    lemma_fewer_by_one, lemma_live_room_left, lemma_signalled_wf, lemma_slot_of, lemma_started_wf,
    lemma_tombstoned_wf,
};
#[allow(unused_imports)]
use super::room::{
    is_present, lemma_mark_keeps, lemma_present, mark_players, present, with_present_owner,
};
#[allow(unused_imports)]
use super::sync::{game_data_bytes, heard_from, input_outcome, ready_outcome, signalled};
#[allow(unused_imports)]
use super::user::{
    admitted, departed, evicted_outcome, login_outcome, quit_message, stale_left, LoginModel,
};
#[allow(unused_imports)]
use super::util::{resolved_in_game, Outcome};
#[allow(unused_imports)]
use super::{ack_outcome, ack_snapshot, possible_outcome};

verus! {

/// Somebody at `addr` is present in a room.
pub open spec fn present_in(m: ServerModel, game_id: u32, addr: u64) -> bool {
    m.games.dom().contains(game_id) && is_present(m.games[game_id].players, addr)
}

/// No two addresses share a session.
pub open spec fn own_sessions(m: ServerModel) -> bool {
    forall|a: u64, b: u64|
        m.by_addr.dom().contains(a) && m.by_addr.dom().contains(b) && #[trigger] m.by_addr[a]
            == #[trigger] m.by_addr[b] ==> a == b
}

/// Whoever is logged in is present in no room but the one that it says it is in.
pub open spec fn at_home(m: ServerModel) -> bool {
    &&& own_sessions(m)
    &&& forall|game_id: u32, addr: u64| #[trigger]
        present_in(m, game_id, addr) && m.client(addr) is Some ==> (m.client(addr)->0).game_id
            == Some(game_id)
}

/// A client that is known in both states says in both that it is in the same
/// room, and it is not new.
pub open spec fn same_room(m: ServerModel, after: ServerModel, addr: u64) -> bool {
    after.client(addr) is Some ==> m.client(addr) is Some && (after.client(addr)->0).game_id == (
    m.client(addr)->0).game_id
}

/// What changes about others is only that they leave: no address gets a session,
/// no client moves, and nobody becomes present in a room.
pub open spec fn others_stay(m: ServerModel, after: ServerModel, src: u64) -> bool {
    &&& forall|a: u64| #[trigger]
        after.by_addr.dom().contains(a) ==> m.by_addr.dom().contains(a) && after.by_addr[a]
            == m.by_addr[a]
    &&& forall|a: u64| a != src ==> #[trigger] same_room(m, after, a)
    &&& forall|g: u32, a: u64| #[trigger]
        present_in(after, g, a) && a != src ==> present_in(m, g, a)
}

/// The same, of everybody.
pub open spec fn all_stay(m: ServerModel, after: ServerModel) -> bool {
    &&& forall|a: u64| #[trigger]
        after.by_addr.dom().contains(a) ==> m.by_addr.dom().contains(a) && after.by_addr[a]
            == m.by_addr[a]
    &&& forall|a: u64| #[trigger] same_room(m, after, a)
    &&& forall|g: u32, a: u64| #[trigger] present_in(after, g, a) ==> present_in(m, g, a)
}

/// Where all stay, everybody is still at home.
proof fn lemma_all_stay(m: ServerModel, after: ServerModel)
    requires
        at_home(m),
        all_stay(m, after),
    ensures
        at_home(after),
{
    assert forall|g: u32, a: u64| #[trigger]
        present_in(after, g, a) && after.client(a) is Some implies (after.client(a)->0).game_id
        == Some(g) by {
        assert(same_room(m, after, a));
        assert(present_in(m, g, a));
    }
}

/// Where the others stay, everybody is still at home if `src` is.
proof fn lemma_others_stay(m: ServerModel, after: ServerModel, src: u64)
    requires
        at_home(m),
        others_stay(m, after, src),
        forall|g: u32| #[trigger]
            present_in(after, g, src) && after.client(src) is Some ==> (after.client(
                src,
            )->0).game_id == Some(g),
    ensures
        at_home(after),
{
    assert forall|g: u32, a: u64| #[trigger]
        present_in(after, g, a) && after.client(a) is Some implies (after.client(a)->0).game_id
        == Some(g) by {
        if a != src {
            assert(same_room(m, after, a));
            assert(present_in(m, g, a));
        }
    }
}

/// Changing a client changes no other.
proof fn lemma_with_client(m: ServerModel, src: u64, client: ClientModel)
    requires
        own_sessions(m),
        m.client(src) is Some,
    ensures
        m.with_client(src, client).client(src) == Some(client),
        forall|a: u64| a != src ==> #[trigger] m.with_client(src, client).client(a) == m.client(a),
        own_sessions(m.with_client(src, client)),
{
    let after = m.with_client(src, client);
    assert forall|a: u64| a != src implies #[trigger] after.client(a) == m.client(a) by {
        if m.by_addr.dom().contains(a) {
            assert(m.by_addr[a] != m.by_addr[src]);
        }
    }
}

/// Marking players moves nobody.
proof fn lemma_mark_stays(m: ServerModel, players: Seq<PlayerModel>, status: u8, n: nat)
    requires
        m.wf(),
    ensures
        all_stay(m, mark_players(m, players, status, n)),
        mark_players(m, players, status, n).games == m.games,
{
    lemma_mark_keeps(m, players, status, n);
    let after = mark_players(m, players, status, n);
    assert forall|a: u64| #[trigger] same_room(m, after, a) by {
        if after.client(a) is Some {
            let id = m.by_addr[a];
            assert(m.by_id.dom().contains(id));
            assert(after.by_id[id].game_id == m.by_id[id].game_id);
        }
    }
}

/// Dropping a player out of a live game moves nobody.
proof fn lemma_drop_stays(m: ServerModel, game_id: u32, src: u64)
    requires
        m.wf(),
    ensures
        all_stay(m, drop_outcome(m, game_id, src).state),
{
    let after = drop_outcome(m, game_id, src).state;
    if m.game(game_id) is Some {
        lemma_drop_room(m, game_id, src);
        lemma_drop_sessions(m, game_id, src);
        let before = m.games[game_id];
        assert forall|g: u32, a: u64| #[trigger] present_in(after, g, a) implies present_in(m, g, a)
            by {
            assert(after.game(g) is Some);
            if g == game_id {
                if after.games[g] == ended_game(before) {
                    lemma_fewer(before.players, a);
                    assert(after.games[g].players == present(before.players));
                } else {
                    assert(after.games[g].players == before.players);
                }
            } else {
                assert(after.game(g) == m.game(g));
            }
        }
        assert forall|a: u64| #[trigger] same_room(m, after, a) by {
            if m.client(a) is Some {
                lemma_drop_keeps_clients(m, game_id, src, a);
            }
        }
    }
}

/// Who is in no room is present in none.
proof fn lemma_in_no_room(m: ServerModel, src: u64, g: u32)
    requires
        at_home(m),
        m.client(src) is Some,
        !in_a_room(m, src),
    ensures
        !present_in(m, g, src),
{
    if present_in(m, g, src) {
        let players = m.games[g].players;
        let i = choose|i: int|
            0 <= i < players.len() && (#[trigger] players[i]).addr == src && !players[i].left_room;
        assert(players[i].addr == src);
        assert(has_addr(players, src));
        assert((m.client(src)->0).game_id == Some(g));
    }
}

/// Leaving the room of a live game keeps everybody at home, and the player who
/// leaves is present nowhere.
proof fn lemma_leave_live_home(m: ServerModel, room: u32, who: u64)
    requires
        m.wf(),
        at_home(m),
        m.client(who) matches Some(client) && client.game_id == Some(room),
        m.game(room) is Some,
    ensures
        ({
            let lobby = m.with_client(who, back_in_lobby(m.client(who)->0));
            let after = live_room_left(lobby, room, m.games[room], who).state;
            &&& others_stay(m, after, who)
            &&& at_home(after)
            &&& forall|g: u32| !#[trigger] present_in(after, g, who)
        }),
{
    let client = m.client(who)->0;
    let game = m.games[room];
    let lobby = m.with_client(who, back_in_lobby(client));
    lemma_with_client(m, who, back_in_lobby(client));
    assert(lobby.wf());
    lemma_live_room_left(lobby, room, game, who);
    let after = live_room_left(lobby, room, game, who).state;
    lemma_tombstoned_wf(game, who);
    let open = lobby.with_game(room, with_present_owner(tombstoned(game, who)));
    assert(open.wf());
    lemma_drop_sessions(open, room, who);
    assert forall|a: u64| a != who implies #[trigger] same_room(m, after, a) by {
        if after.client(a) is Some {
            lemma_drop_keeps_clients(open, room, who, a);
            assert(open.client(a) == lobby.client(a));
        }
    }
    assert forall|g: u32, a: u64| #[trigger] present_in(after, g, a) implies (a != who || g != room)
        && present_in(m, g, a) by {
        assert(after.game(g) is Some);
        if g == room {
            assert(is_present(after.games[room].players, a));
        } else {
            assert(after.game(g) == lobby.game(g));
        }
    }
    assert forall|g: u32| !#[trigger] present_in(after, g, who) by {
        if present_in(after, g, who) {
            assert(present_in(m, g, who));
        }
    }
    lemma_others_stay(m, after, who);
}

/// Leaving a room keeps everybody at home.
pub proof fn lemma_quit_home(m: ServerModel, src: u64)
    requires
        m.wf(),
        at_home(m),
    ensures
        at_home(quit_game_outcome(m, src).state),
        others_stay(m, quit_game_outcome(m, src).state, src),
        forall|g: u32| #[trigger]
            present_in(quit_game_outcome(m, src).state, g, src) ==> present_in(m, g, src),
{
    let after = quit_game_outcome(m, src).state;
    if let Some(client) = m.client(src) {
        if let Some(room) = client.game_id {
            if let Some(game) = m.game(room) {
                let lobby = m.with_client(src, back_in_lobby(client));
                lemma_with_client(m, src, back_in_lobby(client));
                assert(lobby.wf());
                if game.sync is Some {
                    lemma_leave_live_home(m, room, src);
                } else {
                    let left = vacated(game, src);
                    lemma_vacated_stays(game, src);
                    assert(with_present_owner(left).players == left.players);
                    assert forall|a: u64| a != src implies #[trigger] same_room(m, after, a) by {
                        assert(after.client(a) == lobby.client(a));
                    }
                    assert forall|g: u32, a: u64| #[trigger] present_in(after, g, a) implies (a
                        != src || g != room) && present_in(m, g, a) by {
                        if g == room {
                            assert(is_present(left.players, a));
                        }
                    }
                    assert forall|g: u32| #[trigger] present_in(after, g, src) implies false by {
                        assert(present_in(m, g, src));
                    }
                    lemma_others_stay(m, after, src);
                }
            }
        }
    }
    if after == m {
        assert forall|a: u64| a != src implies #[trigger] same_room(m, after, a) by {}
    }
}

/// Whoever is taken off a list is not present, and nobody else becomes present.
proof fn lemma_vacated_stays(game: GameModel, src: u64)
    requires
        distinct_addrs(game.players),
    ensures
        forall|a: u64| #[trigger]
            is_present(vacated(game, src).players, a) ==> a != src && is_present(game.players, a),
{
    let after = vacated(game, src).players;
    assert forall|a: u64| #[trigger] is_present(after, a) implies a != src && is_present(
        game.players,
        a,
    ) by {
        let i = choose|i: int|
            0 <= i < after.len() && (#[trigger] after[i]).addr == a && !after[i].left_room;
        assert(has_addr(after, a));
        match game.slot_of(src) {
            Some(slot) => {
                lemma_slot_of(game, src);
                lemma_fewer_by_one(game.players, slot, a);
                if a == src {
                    lemma_fewer_by_one(game.players, slot, src);
                }
            },
            None => {
                assert(game.players[i].addr == a);
            },
        }
    }
}

/// Opening a room keeps everybody at home.
proof fn lemma_create_home(m: ServerModel, src: u64, data: Seq<u8>)
    requires
        at_home(m),
    ensures
        at_home(create_game_outcome(m, src, data).state),
{
    let after = create_game_outcome(m, src, data).state;
    if let Some(client) = m.client(src) {
        if !in_a_room(m, src) {
            let free = without_stale_game(m, src);
            let left = ClientModel { game_id: None, ..client };
            if client.game_id is Some {
                lemma_with_client(m, src, left);
            }
            let now = free.client(src)->0;
            let game_id = free.next_game_id;
            let entered = ClientModel { game_id: Some(game_id), ..now };
            let numbered = free.after_game_id();
            assert(own_sessions(numbered));
            assert(numbered.client(src) == free.client(src));
            lemma_with_client(numbered, src, entered);
            assert(after.by_id == numbered.with_client(src, entered).by_id);
            assert forall|a: u64| a != src implies #[trigger] same_room(m, after, a) by {
                assert(after.client(a) == numbered.with_client(src, entered).client(a));
                assert(numbered.client(a) == free.client(a));
            }
            assert(after.client(src) == Some(entered));
            assert forall|g: u32, a: u64| #[trigger] present_in(after, g, a) implies if g
                == game_id {
                a == src
            } else {
                present_in(m, g, a)
            } by {
                if g != game_id {
                    assert(after.games[g] == m.games[g]);
                }
            }
            assert forall|g: u32| #[trigger] present_in(after, g, src) implies g == game_id by {
                lemma_in_no_room(m, src, g);
            }
            lemma_others_stay(m, after, src);
        }
    } else {
        assert forall|a: u64| #[trigger] same_room(m, after, a) by {
            assert(after.client(a) == m.client(a));
        }
        assert forall|g: u32, a: u64| #[trigger] present_in(after, g, a) implies present_in(m, g, a)
            by {}
        lemma_all_stay(m, after);
    }
}

/// Joining a room keeps everybody at home.
proof fn lemma_join_home(m: ServerModel, src: u64, data: Seq<u8>)
    requires
        at_home(m),
    ensures
        at_home(join_game_outcome(m, src, data).state),
{
    let after = join_game_outcome(m, src, data).state;
    if let Some(client) = m.client(src) {
        if client.game_id is None {
            let room = requested_game(data);
            let entered = ClientModel { game_id: Some(room), ..client };
            lemma_with_client(m, src, entered);
            let met = m.with_client(src, entered);
            assert forall|a: u64| a != src implies #[trigger] same_room(m, after, a) by {
                assert(after.client(a) == met.client(a));
            }
            assert(after.client(src) == met.client(src));
            assert forall|g: u32, a: u64| #[trigger] present_in(after, g, a) implies present_in(
                m,
                g,
                a,
            ) || (g == room && a == src) by {
                if g == room && m.game(room) is Some {
                    let game = m.games[room];
                    let listed = joined_game(game, src, client).players;
                    assert(after.games[g].players == listed);
                    let i = choose|i: int|
                        0 <= i < listed.len() && (#[trigger] listed[i]).addr == a
                            && !listed[i].left_room;
                    if i < game.players.len() {
                        assert(game.players[i].addr == a && !game.players[i].left_room);
                    }
                }
            }
            assert forall|g: u32| #[trigger] present_in(after, g, src) implies g == room by {
                if g != room {
                    lemma_in_no_room(m, src, g);
                }
            }
            lemma_others_stay(m, after, src);
        }
    }
}

/// Starting a game moves nobody.
proof fn lemma_start_home(m: ServerModel, src: u64)
    requires
        m.wf(),
        at_home(m),
        forall|g: u32| #[trigger]
            m.games.dom().contains(g) ==> m.games[g].players.len() <= usize::MAX,
    ensures
        at_home(start_game_outcome(m, src).state),
{
    let after = start_game_outcome(m, src).state;
    if let Some(client) = m.client(src) {
        if let Some(room) = client.game_id {
            if let Some(game) = m.game(room) {
                if has_addr(game.players, src) && game.sync is None && game.owner_user_id
                    == client.user_id {
                    let started = started_game(game, m.config.disable_output_cache);
                    let open = m.with_game(room, started);
                    lemma_present(game.players);
                    lemma_started_wf(m, room);
                    lemma_mark_stays(
                        open,
                        started.players,
                        PLAYER_STATUS_NET_SYNC,
                        started.players.len(),
                    );
                    assert forall|a: u64| #[trigger] same_room(m, after, a) by {
                        assert(same_room(open, after, a));
                        assert(open.client(a) == m.client(a));
                    }
                    assert forall|g: u32, a: u64| #[trigger]
                        present_in(after, g, a) implies present_in(m, g, a) by {
                        assert(present_in(open, g, a));
                        if g == room {
                            let listed = started.players;
                            let i = choose|i: int|
                                0 <= i < listed.len() && (#[trigger] listed[i]).addr == a
                                    && !listed[i].left_room;
                            let kept = present(game.players);
                            assert(kept[i].addr == a && !kept[i].left_room);
                            lemma_fewer(game.players, a);
                        }
                    }
                    lemma_all_stay(m, after);
                }
            }
        }
    }
}

/// Kicking moves nobody into a room.
proof fn lemma_kick_home(m: ServerModel, src: u64, found: Option<u64>)
    requires
        m.wf(),
        at_home(m),
    ensures
        at_home(kick_outcome(m, src, found).state),
{
    let after = kick_outcome(m, src, found).state;
    if let (Some(client), Some(target)) = (m.client(src), found) {
        if let (Some(room), Some(kicked)) = (client.game_id, m.client(target)) {
            if kicked.game_id == Some(room) && m.game(room) is Some {
                let game = m.games[room];
                lemma_leave_live_home(m, room, target);
                let waiting = m.with_game(room, kicked_game(game, target));
                assert forall|a: u64| #[trigger] same_room(m, waiting, a) by {
                    assert(waiting.client(a) == m.client(a));
                }
                assert forall|g: u32, a: u64| #[trigger] present_in(waiting, g, a) implies present_in(
                    m,
                    g,
                    a,
                ) by {
                    if g == room && game.slot_of(target) is Some {
                        lemma_slot_of(game, target);
                        lemma_fewer_by_one(game.players, game.slot_of(target)->0, a);
                    }
                }
                lemma_all_stay(m, waiting);
            }
        }
    }
}

/// Input moves nobody.
proof fn lemma_input_home(
    m: ServerModel,
    src: u64,
    game_id: u32,
    slot: int,
    input: InputModel,
    now: u64,
)
    requires
        at_home(m),
        m.game(game_id) is Some,
        0 <= slot < m.games[game_id].players.len(),
    ensures
        at_home(input_outcome(m, src, game_id, slot, input, now).state),
{
    let after = input_outcome(m, src, game_id, slot, input, now).state;
    let game = m.games[game_id];
    assert forall|a: u64| #[trigger] same_room(m, after, a) by {
        assert(after.client(a) == m.client(a));
    }
    assert forall|g: u32, a: u64| #[trigger] present_in(after, g, a) implies present_in(m, g, a) by {
        if g == game_id {
            let players = after.games[g].players;
            assert(players == heard_from(game, slot, now).players);
            let i = choose|i: int|
                0 <= i < players.len() && (#[trigger] players[i]).addr == a
                    && !players[i].left_room;
            assert(game.players[i].addr == a && !game.players[i].left_room);
        }
    }
    lemma_all_stay(m, after);
}

/// The ready signal moves nobody.
proof fn lemma_ready_home(m: ServerModel, src: u64)
    requires
        m.wf(),
        at_home(m),
    ensures
        at_home(ready_outcome(m, src).state),
{
    let after = ready_outcome(m, src).state;
    if let Some(client) = m.client(src) {
        let marked = ClientModel { player_status: PLAYER_STATUS_NET_SYNC, ..client };
        let ready = m.with_client(src, marked);
        lemma_with_client(m, src, marked);
        assert(ready.wf());
        assert forall|a: u64| #[trigger] same_room(m, ready, a) by {
            if a != src {
                assert(ready.client(a) == m.client(a));
            }
        }
        assert forall|g: u32, a: u64| #[trigger] present_in(ready, g, a) implies present_in(m, g, a)
            by {}
        lemma_all_stay(m, ready);
        if let Some(room) = client.game_id {
            if let Some(game) = m.game(room) {
                let noted = signalled(game, src);
                let state = ready.with_game(room, noted);
                lemma_signalled_wf(game, src);
                assert(state.wf());
                assert forall|a: u64| #[trigger] same_room(ready, state, a) by {
                    assert(state.client(a) == ready.client(a));
                }
                assert forall|g: u32, a: u64| #[trigger] present_in(state, g, a) implies present_in(
                    ready,
                    g,
                    a,
                ) by {
                    if g == room {
                        let i = choose|i: int|
                            0 <= i < noted.players.len() && (#[trigger] noted.players[i]).addr == a
                                && !noted.players[i].left_room;
                        assert(game.players[i].addr == a && !game.players[i].left_room);
                    }
                }
                lemma_all_stay(ready, state);
                let kept = present(noted.players);
                lemma_mark_stays(state, kept, PLAYER_STATUS_PLAYING, kept.len());
                lemma_all_stay(
                    state,
                    mark_players(state, kept, PLAYER_STATUS_PLAYING, kept.len()),
                );
            }
        }
    }
}

/// The handshake moves nobody.
proof fn lemma_ack_home(m: ServerModel, src: u64, now: u64, snapshot: Seq<u8>)
    requires
        at_home(m),
    ensures
        at_home(ack_outcome(m, src, now, snapshot).state),
{
    let after = ack_outcome(m, src, now, snapshot).state;
    if m.client(src) is Some {
        let known = after.by_id[m.by_addr[src]];
        lemma_with_client(m, src, known);
        assert(after =~= m.with_client(src, known));
        assert forall|a: u64| #[trigger] same_room(m, after, a) by {
            if a != src {
                assert(after.client(a) == m.client(a));
            }
        }
        assert forall|g: u32, a: u64| #[trigger] present_in(after, g, a) implies present_in(m, g, a)
            by {}
        lemma_all_stay(m, after);
    }
}

/// Removing a client moves nobody.
pub proof fn lemma_departed_home(m: ServerModel, addr: u64, message: Seq<u8>)
    requires
        at_home(m),
    ensures
        all_stay(m, departed(m, addr, message).state),
        at_home(departed(m, addr, message).state),
{
    let after = departed(m, addr, message).state;
    assert forall|a: u64| #[trigger] same_room(m, after, a) by {}
    assert forall|g: u32, a: u64| #[trigger] present_in(after, g, a) implies present_in(m, g, a) by {}
    lemma_all_stay(m, after);
}

/// At first, without clients and rooms, everybody is at home.
pub proof fn law_empty_server_is_at_home(m: ServerModel)
    requires
        m.by_addr == Map::<u64, u128>::empty(),
        m.games == Map::<u32, GameModel>::empty(),
    ensures
        at_home(m),
{
}

/// Whatever a client asks for other than to log in, afterwards everybody who is
/// logged in is still present in no room but the one that it says it is in.
pub proof fn law_everybody_stays_at_home(
    m: ServerModel,
    src: u64,
    message: MessageModel,
    now_secs: u64,
    now: u64,
    outcome: Outcome<()>,
)
    requires
        m.wf(),
        at_home(m),
        forall|g: u32| #[trigger]
            m.games.dom().contains(g) ==> m.games[g].players.len() <= usize::MAX,
        message.message_type != USER_LOGIN,
        possible_outcome(m, src, message, now_secs, now, outcome),
    ensures
        at_home(outcome.state),
{
    let data = message.data;
    lemma_quit_home(m, src);
    lemma_departed_home(
        quit_game_outcome(m, src).state,
        src,
        quit_message(data),
    );
    lemma_create_home(m, src, data);
    lemma_join_home(m, src, data);
    lemma_start_home(m, src);
    lemma_ready_home(m, src);
    if message.message_type == CLIENT_TO_SERVER_ACK {
        let snapshot = choose|snapshot: Seq<u8>|
            #![trigger ack_outcome(m, src, now, snapshot)]
            ack_snapshot(m, src, now, snapshot) && outcome == ack_outcome(
                m,
                src,
                now,
                snapshot,
            );
        lemma_ack_home(m, src, now, snapshot);
    }
    if message.message_type == KICK_USER {
        let found = choose|found: Option<u64>|
            #![trigger kick_outcome(m, src, found)]
            m.user_id_found(kick_target(data), found) && outcome == kick_outcome(
                m,
                src,
                found,
            );
        lemma_kick_home(m, src, found);
    }
    if let Some((game_id, slot)) = resolved_in_game(m, src) {
        lemma_drop_stays(m, game_id, src);
        lemma_all_stay(m, drop_outcome(m, game_id, src).state);
        lemma_slot_of(m.games[game_id], src);
        lemma_input_home(
            m,
            src,
            game_id,
            slot,
            InputModel::GameData(
                game_data_bytes(data),
            ),
            now,
        );
        lemma_input_home(
            m,
            src,
            game_id,
            slot,
            InputModel::GameCache(data[1]),
            now,
        );
    }
}

/// The same holds of a login under a new session identifier, from an address that
/// is present in no room.
pub proof fn law_login_keeps_everybody_at_home(
    m: ServerModel,
    src: u64,
    request: LoginModel,
    now_secs: u64,
    now: u64,
    found: Option<u64>,
    evicted: Option<u64>,
    session_id: u128,
)
    requires
        m.wf(),
        at_home(m),
        forall|g: u32| !#[trigger] present_in(m, g, src),
        forall|a: u64| #[trigger]
            m.by_addr.dom().contains(a) ==> m.by_addr[a] != session_id,
    ensures
        at_home(
            login_outcome(m, src, request, now_secs, now, found, evicted, session_id).state,
        ),
{
    match found {
        None => lemma_admitted_home(m, src, request, session_id, now_secs, now),
        Some(addr) => {
            let left = stale_left(m, addr).state;
            lemma_quit_home(m, addr);
            assert forall|g: u32| !#[trigger] present_in(left, g, src) by {
                if present_in(left, g, src) {
                    assert(present_in(m, g, src));
                }
            }
            let gone = evicted_outcome(left, evicted).state;
            if let Some(at) = evicted {
                lemma_departed_home(left, at, Seq::empty());
                assert(gone == departed(left, at, Seq::empty()).state);
            }
            assert forall|g: u32| !#[trigger] present_in(gone, g, src) by {
                if present_in(gone, g, src) {
                    assert(present_in(left, g, src));
                }
            }
            lemma_admitted_home(gone, src, request, session_id, now_secs, now);
        },
    }
}

/// Letting a client in keeps everybody at home.
proof fn lemma_admitted_home(
    m: ServerModel,
    src: u64,
    request: LoginModel,
    session_id: u128,
    now_secs: u64,
    now: u64,
)
    requires
        at_home(m),
        forall|g: u32| !#[trigger] present_in(m, g, src),
        forall|a: u64| #[trigger]
            m.by_addr.dom().contains(a) ==> m.by_addr[a] != session_id,
    ensures
        at_home(admitted(m, src, request, session_id, now_secs, now).state),
{
    let after = admitted(m, src, request, session_id, now_secs, now).state;
    assert forall|g: u32, a: u64| #[trigger]
        present_in(after, g, a) && after.client(a) is Some implies (after.client(a)->0).game_id
        == Some(g) by {
        assert(present_in(m, g, a));
        assert(a != src);
        assert(after.client(a) == m.client(a));
    }
}

/// Nobody who is logged in is present in two rooms.
pub proof fn law_nobody_is_in_two_rooms(m: ServerModel, addr: u64, one: u32, other: u32)
    requires
        at_home(m),
        m.client(addr) is Some,
        present_in(m, one, addr),
        present_in(m, other, addr),
    ensures
        one == other,
{
}

} // verus!
