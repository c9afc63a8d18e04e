//! What becomes of a room when somebody opens it, joins it, leaves it or is kicked
//! out of it: who is on the list, who owns it, and who hears what.

use vstd::prelude::*;
#[allow(unused_imports)]
use vstd::utf8::encode_utf8;
#[allow(unused_imports)]
use crate::kaillera::protocol::MessageModel;
#[allow(unused_imports)]
use crate::packet_laws::plain;
#[allow(unused_imports)]
use crate::packet_util::{
    chat_body, close_game_body, game_data_body, game_status_body, join_game_body, new_game_body,
    player_information_body, quit_game_body, PlayerEntryModel,
};
#[allow(unused_imports)]
use crate::state::{
    has_addr, lemma_slot_unique, ClientModel, GameModel, PlayerModel, ServerError, ServerModel,
};
#[allow(unused_imports)]
use crate::text::log_text;
#[allow(unused_imports)]
use crate::wire::{
    after_string, first_string, law_le16_is_read_back, law_le32_is_read_back,
    law_string_is_read_back, le16, le32, terminated,
};
#[allow(unused_imports)]
use super::acceptable;
#[allow(unused_imports)]
use super::chat::game_chat_outcome;
#[allow(unused_imports)]
use super::game::{
    create_game_outcome, join_game_outcome, kick_outcome, kick_request_complete, kick_target,
    kicked_game,
    quit_game_outcome, requested_game, start_game_outcome, vacated,
};
#[allow(unused_imports)]
use super::listing_laws::law_player_list_has_all_others;
#[allow(unused_imports)]
use super::room::{new_owner, owner_present, present, with_present_owner};
#[allow(unused_imports)]
use super::sync::ready_outcome;
#[allow(unused_imports)]
use super::util::{other_players, player_addrs, ActionModel};

verus! {

/// Player `i` of a list is the first who has not left.
pub open spec fn first_there(players: Seq<PlayerModel>, i: int) -> bool {
    &&& 0 <= i < players.len()
    &&& !players[i].left_room
    &&& forall|j: int| 0 <= j < i ==> (#[trigger] players[j]).left_room
}

/// Somebody on the list who has not left has this number.
pub open spec fn still_there(players: Seq<PlayerModel>, user_id: u16) -> bool {
    exists|i: int|
        0 <= i < players.len() && !(#[trigger] players[i]).left_room && players[i].user_id
            == user_id
}

/// The room `after` is owned as it should be when these players are on its list: by
/// the owner of `before` while it has not left, else by the first who has not left.
/// When everybody left, nothing changes.
pub open spec fn rightly_owned(
    players: Seq<PlayerModel>,
    before: GameModel,
    after: GameModel,
) -> bool {
    &&& still_there(players, before.owner_user_id) ==> after.owner == before.owner
        && after.owner_user_id == before.owner_user_id
    &&& !still_there(players, before.owner_user_id) ==> forall|i: int| #[trigger]
        first_there(players, i) ==> after.owner == players[i].username && after.owner_user_id
            == players[i].user_id
    &&& (forall|i: int| 0 <= i < players.len() ==> (#[trigger] players[i]).left_room)
        ==> after.owner == before.owner && after.owner_user_id == before.owner_user_id
}

/// The addresses on a list.
pub open spec fn addrs_of(players: Seq<PlayerModel>) -> Set<u64> {
    players.map_values(|p: PlayerModel| p.addr).to_set()
}

/// A message to everybody on a list has these recipients.
pub proof fn lemma_addrs_of(players: Seq<PlayerModel>)
    ensures
        player_addrs(players) == addrs_of(players),
{
    let addrs = players.map_values(|p: PlayerModel| p.addr);
    assert forall|a: u64| #[trigger] player_addrs(players).contains(a) == addrs.to_set().contains(
        a,
    ) by {
        if has_addr(players, a) {
            let i = choose|i: int| 0 <= i < players.len() && #[trigger] players[i].addr == a;
            assert(addrs[i] == a);
        }
        if addrs.contains(a) {
            let i = choose|i: int| 0 <= i < addrs.len() && addrs[i] == a;
            assert(players[i].addr == a);
        }
    }
    assert(player_addrs(players) =~= addrs_of(players));
}

/// Who is still in the room is who has not left, in the same order.
pub proof fn lemma_present_is_filter(players: Seq<PlayerModel>)
    ensures
        present(players) == players.filter(|p: PlayerModel| !p.left_room),
    decreases players.len(),
{
    reveal(Seq::filter);
    if players.len() > 0 {
        lemma_present_is_filter(players.drop_last());
    }
}

/// The first who is still in the room is the first on the list who has not left.
proof fn lemma_first(players: Seq<PlayerModel>, i: int)
    requires
        first_there(players, i),
    ensures
        present(players).len() > 0,
        present(players)[0] == players[i],
    decreases players.len(),
{
    let front = players.drop_last();
    if i < front.len() {
        assert forall|j: int| 0 <= j < i implies (#[trigger] front[j]).left_room by {
            assert(front[j] == players[j]);
        }
        lemma_first(front, i);
    } else {
        lemma_nobody(front);
    }
}

/// Where everybody left, nobody is in the room.
proof fn lemma_nobody(players: Seq<PlayerModel>)
    requires
        forall|j: int| 0 <= j < players.len() ==> (#[trigger] players[j]).left_room,
    ensures
        present(players).len() == 0,
    decreases players.len(),
{
    if players.len() > 0 {
        let front = players.drop_last();
        assert forall|j: int| 0 <= j < front.len() implies (#[trigger] front[j]).left_room by {
            assert(front[j] == players[j]);
        }
        lemma_nobody(front);
        assert(players[players.len() - 1].left_room);
    }
}

/// Where somebody has not left, there is a first.
proof fn lemma_somebody_is_first(players: Seq<PlayerModel>, k: int) -> (first: int)
    requires
        0 <= k < players.len(),
        !players[k].left_room,
    ensures
        first_there(players, first),
        first <= k,
    decreases k,
{
    if forall|j: int| 0 <= j < k ==> (#[trigger] players[j]).left_room {
        k
    } else {
        let j = choose|j: int| 0 <= j < k && !(#[trigger] players[j]).left_room;
        lemma_somebody_is_first(players, j)
    }
}

/// Being in the room with a number is to be on the list with it and not to have left.
proof fn lemma_owner_present(game: GameModel)
    ensures
        owner_present(game) == still_there(game.players, game.owner_user_id),
{
    let there = present(game.players);
    super::room::lemma_present(game.players);
    if owner_present(game) {
        let i = choose|i: int|
            0 <= i < there.len() && (#[trigger] there[i]).user_id == game.owner_user_id;
        assert(game.players.contains(there[i]));
        let j = choose|j: int| 0 <= j < game.players.len() && game.players[j] == there[i];
        assert(!game.players[j].left_room);
    }
    if still_there(game.players, game.owner_user_id) {
        let j = choose|j: int|
            0 <= j < game.players.len() && !(#[trigger] game.players[j]).left_room
                && game.players[j].user_id == game.owner_user_id;
        assert(there.contains(game.players[j]));
        let i = choose|i: int| 0 <= i < there.len() && there[i] == game.players[j];
        assert(there[i].user_id == game.owner_user_id);
    }
}

/// Handing over. While the owner is on the list and has not left, a room keeps it;
/// else the first who has not left owns the room. Nothing else of the room changes.
/// Somebody takes over exactly when the owner is gone and anybody is left.
pub proof fn law_first_who_stays_takes_over(game: GameModel)
    ensures
        ({
            let after = with_present_owner(game);
            &&& rightly_owned(game.players, game, after)
            &&& after == (GameModel {
                owner: after.owner,
                owner_user_id: after.owner_user_id,
                ..game
            })
            &&& new_owner(game) is Some <==> !still_there(game.players, game.owner_user_id)
                && exists|i: int|
                0 <= i < game.players.len() && !(#[trigger] game.players[i]).left_room
            &&& new_owner(game) matches Some(player) ==> after.owner == player.username
        }),
{
    let players = game.players;
    let after = with_present_owner(game);
    lemma_owner_present(game);
    assert forall|i: int| #[trigger]
        first_there(players, i) && !still_there(
            players,
            game.owner_user_id,
        ) implies after.owner == players[i].username && after.owner_user_id
        == players[i].user_id by {
        lemma_first(players, i);
    }
    if forall|i: int| 0 <= i < players.len() ==> (#[trigger] players[i]).left_room {
        lemma_nobody(players);
    } else {
        let k = choose|k: int| 0 <= k < players.len() && !(#[trigger] players[k]).left_room;
        let i = lemma_somebody_is_first(players, k);
        lemma_first(players, i);
    }
}

/// What everybody hears of a room.
pub open spec fn room_news(m: ServerModel, room: GameModel) -> ActionModel {
    ActionModel::Send {
        to: m.by_addr.dom(),
        message_type: 14,
        data: game_status_body(
            room.game_id,
            room.game_status,
            room.num_players,
            room.max_players,
        ),
    }
}

/// What everybody on the list of a room hears of who leaves it.
pub open spec fn quit_news(room: GameModel, client: ClientModel) -> ActionModel {
    ActionModel::Send {
        to: addrs_of(room.players),
        message_type: 11,
        data: quit_game_body(client.username, client.user_id),
    }
}

/// What everybody on the list of a room hears of its new owner.
pub open spec fn host_news(room: GameModel) -> ActionModel {
    ActionModel::Send {
        to: addrs_of(room.players),
        message_type: 8,
        data: chat_body(
            encode_utf8("Server"@),
            encode_utf8(log_text(room.owner) + " is now the room host"@),
        ),
    }
}

/// Somebody has to take over a room from the owner of `before`.
pub open spec fn host_is_gone(players: Seq<PlayerModel>, before: GameModel) -> bool {
    !still_there(players, before.owner_user_id) && exists|i: int|
        0 <= i < players.len() && !(#[trigger] players[i]).left_room
}

/// A client who went back to the lobby: in no room, and idle.
pub open spec fn sent_back(client: ClientModel) -> ClientModel {
    ClientModel { game_id: None, player_status: 1, ..client }
}

/// Leaving a waiting room in which others stay takes the one who leaves off the list
/// and nobody else: the others keep their order. The room counts who is listed, and
/// the first who stays owns it if the owner left. Everybody hears of the room, and
/// who stays hears who left and, if it changed, who owns the room. No other room and
/// no other client changes.
pub proof fn law_leaving_a_waiting_room(m: ServerModel, src: u64, game_id: u32, slot: int)
    requires
        m.wf(),
        m.client(src) matches Some(client) && client.game_id == Some(game_id),
        m.game(game_id) matches Some(game) && game.sync is None && game.players.len() >= 2 && 0
            <= slot < game.players.len() && game.players[slot].addr == src,
    ensures
        ({
            let client = m.client(src)->0;
            let game = m.games[game_id];
            let rest = game.players.remove(slot);
            let outcome = quit_game_outcome(m, src);
            let room = outcome.state.games[game_id];
            &&& outcome.result is Ok
            &&& outcome.state == (ServerModel {
                by_id: m.by_id.insert(m.by_addr[src], sent_back(client)),
                games: m.games.insert(game_id, room),
                ..m
            })
            &&& room == (GameModel {
                players: rest,
                num_players: (rest.len() % 256) as u8,
                owner: room.owner,
                owner_user_id: room.owner_user_id,
                ..game
            })
            &&& rightly_owned(rest, game, room)
            &&& outcome.actions == seq![room_news(m, room), quit_news(room, client)] + (
            if host_is_gone(rest, game) {
                seq![host_news(room)]
            } else {
                Seq::empty()
            })
        }),
{
    let client = m.client(src)->0;
    let game = m.games[game_id];
    assert(game.wf());
    lemma_slot_unique(game, src, slot);
    let left = vacated(game, src);
    let rest = game.players.remove(slot);
    assert(left.players == rest);
    law_first_who_stays_takes_over(left);
    let outcome = quit_game_outcome(m, src);
    let room = outcome.state.games[game_id];
    assert(room == with_present_owner(left));
    lemma_addrs_of(rest);
    assert(outcome.actions =~= seq![room_news(m, room), quit_news(room, client)] + (
    if host_is_gone(rest, game) {
        seq![host_news(room)]
    } else {
        Seq::empty()
    }));
}

/// The last one to leave a waiting room closes it: the room is gone and no other
/// room changes; the client is back in the lobby; and everybody hears that the room
/// closed and who left.
pub proof fn law_leaving_the_last_seat(m: ServerModel, src: u64, game_id: u32)
    requires
        m.wf(),
        m.client(src) matches Some(client) && client.game_id == Some(game_id),
        m.game(game_id) matches Some(game) && game.sync is None && game.players.len() == 1
            && game.players[0].addr == src,
    ensures
        ({
            let client = m.client(src)->0;
            let outcome = quit_game_outcome(m, src);
            &&& outcome.result is Ok
            &&& outcome.state == (ServerModel {
                by_id: m.by_id.insert(m.by_addr[src], sent_back(client)),
                games: m.games.remove(game_id),
                ..m
            })
            &&& outcome.actions == seq![
                ActionModel::Send {
                    to: m.by_addr.dom(),
                    message_type: 16,
                    data: close_game_body(game_id),
                },
                ActionModel::Send {
                    to: m.by_addr.dom(),
                    message_type: 11,
                    data: quit_game_body(client.username, client.user_id),
                },
            ]
        }),
{
    let game = m.games[game_id];
    lemma_slot_unique(game, src, 0);
    assert(vacated(game, src).players.len() == 0);
}

/// Leaving does nothing where there is nothing to leave: for who is not logged in, in
/// no room, or in a room that is gone.
pub proof fn law_nothing_to_leave(m: ServerModel, src: u64)
    requires
        m.client(src) matches Some(client) ==> (client.game_id matches Some(game_id)
            ==> !m.games.dom().contains(game_id)),
    ensures
        quit_game_outcome(m, src).state == m,
        quit_game_outcome(m, src).actions == Seq::<ActionModel>::empty(),
        quit_game_outcome(m, src).result is Ok,
{
}

/// Whoever owns a waiting room takes the one it kicks off the list, and nobody else:
/// every other player is still listed, unchanged and in the same order. The room
/// counts one player less, and is as it was in all else; everybody hears of it, and
/// who stays hears who left. No client and no other room changes.
pub proof fn law_kick_takes_one_off_the_list(
    m: ServerModel,
    src: u64,
    target: u64,
    game_id: u32,
    slot: int,
)
    requires
        m.wf(),
        m.client(src) matches Some(client) && client.game_id == Some(game_id) && (m.game(
            game_id,
        ) matches Some(game) && has_addr(game.players, src) && game.owner_user_id
            == client.user_id),
        m.client(target) matches Some(kicked) && kicked.game_id == Some(game_id),
        m.games[game_id].sync is None,
        m.games[game_id].num_players > 0,
        0 <= slot < m.games[game_id].players.len(),
        m.games[game_id].players[slot].addr == target,
    ensures
        ({
            let game = m.games[game_id];
            let outcome = kick_outcome(m, src, Some(target));
            let room = outcome.state.games[game_id];
            &&& outcome.result is Ok
            &&& outcome.state == (ServerModel { games: m.games.insert(game_id, room), ..m })
            &&& room == (GameModel {
                players: game.players.remove(slot),
                num_players: (game.num_players - 1) as u8,
                ..game
            })
            &&& outcome.actions == seq![room_news(m, room), quit_news(room, m.client(target)->0)]
        }),
{
    let game = m.games[game_id];
    assert(game.wf());
    lemma_slot_unique(game, target, slot);
    let room = kicked_game(game, target);
    lemma_addrs_of(room.players);
    let outcome = kick_outcome(m, src, Some(target));
    assert(outcome.actions =~= seq![room_news(m, room), quit_news(room, m.client(target)->0)]);
}

/// The owner's kick misses whoever is not logged in or says to be elsewhere: nothing
/// changes and nobody hears of it.
pub proof fn law_kick_misses_who_is_elsewhere(
    m: ServerModel,
    src: u64,
    found: Option<u64>,
    game_id: u32,
)
    requires
        m.client(src) matches Some(client) && client.game_id == Some(game_id),
        m.game(game_id) is Some,
        found matches Some(target) ==> (m.client(target) matches Some(kicked)
            ==> kicked.game_id != Some(game_id)),
    ensures
        kick_outcome(m, src, found).state == m,
        kick_outcome(m, src, found).actions == Seq::<ActionModel>::empty(),
        kick_outcome(m, src, found).result is Ok,
{
}

/// A client as a new player of a room: under its name and number, present, not ready,
/// and not heard of yet.
pub open spec fn newcomer(addr: u64, client: ClientModel, player: PlayerModel) -> bool {
    &&& player.addr == addr
    &&& player.username == client.username
    &&& player.user_id == client.user_id
    &&& player.conn_type == client.conn_type
    &&& !player.left_room
    &&& !player.ready
    &&& player.last_game_data_recv is None
    &&& player.input_stall_grace is None
}

/// The entries of these players, with the pings of their clients.
pub open spec fn entries_of(m: ServerModel, players: Seq<PlayerModel>) -> Seq<PlayerEntryModel> {
    Seq::new(
        players.len(),
        |k: int|
            PlayerEntryModel {
                username: players[k].username,
                ping: match m.client(players[k].addr) {
                    Some(client) => client.ping,
                    None => 0,
                },
                user_id: players[k].user_id,
                conn_type: players[k].conn_type,
            },
    )
}

/// Joining the room whose number the request gives puts the client at the end of its
/// list, once, and everybody else stays where they are. The room counts one player
/// more and changes in nothing else. Everybody hears of the room; the client gets the
/// list of all others in it; and everybody on the list, the client included, hears
/// who joined.
pub proof fn law_joining_a_room(
    m: ServerModel,
    src: u64,
    game_id: u32,
    text: Seq<u8>,
    tail: Seq<u8>,
)
    requires
        m.wf(),
        plain(text),
        m.client(src) matches Some(client) && client.game_id is None,
        m.game(game_id) matches Some(game) && game.num_players < 255 && forall|i: int|
            0 <= i < game.players.len() ==> (#[trigger] game.players[i]).addr != src,
    ensures
        ({
            let client = m.client(src)->0;
            let game = m.games[game_id];
            let outcome = join_game_outcome(m, src, terminated(text) + le32(game_id) + tail);
            let room = outcome.state.games[game_id];
            let entered = ClientModel { game_id: Some(game_id), ..client };
            &&& outcome.result is Ok
            &&& outcome.state == (ServerModel {
                by_id: m.by_id.insert(m.by_addr[src], entered),
                games: m.games.insert(game_id, room),
                ..m
            })
            &&& room == (GameModel {
                players: room.players,
                num_players: (game.num_players + 1) as u8,
                ..game
            })
            &&& room.players.len() == game.players.len() + 1
            &&& room.players.drop_last() == game.players
            &&& newcomer(src, client, room.players.last())
            &&& outcome.actions == seq![
                room_news(m, room),
                ActionModel::Send {
                    to: set![src],
                    message_type: 13,
                    data: player_information_body(entries_of(outcome.state, game.players)),
                },
                ActionModel::Send {
                    to: addrs_of(room.players),
                    message_type: 12,
                    data: join_game_body(
                        client.username,
                        client.ping,
                        client.user_id,
                        client.conn_type,
                    ),
                },
            ]
        }),
{
    let client = m.client(src)->0;
    let game = m.games[game_id];
    let data = terminated(text) + le32(game_id) + tail;
    assert(data =~= terminated(text) + (le32(game_id) + tail));
    law_string_is_read_back(text, le32(game_id) + tail);
    law_le32_is_read_back(game_id, tail);
    assert(requested_game(data) == game_id);
    let outcome = join_game_outcome(m, src, data);
    let room = outcome.state.games[game_id];
    assert(!has_addr(game.players, src));
    assert(room.players.drop_last() =~= game.players);
    lemma_addrs_of(room.players);
    law_player_list_has_all_others(outcome.state, room.players, src);
    lemma_others(game.players, room.players.last(), src);
    assert(other_players(outcome.state, room.players, src) =~= entries_of(
        outcome.state,
        game.players,
    ));
    assert(outcome.actions =~= seq![
        room_news(m, room),
        ActionModel::Send {
            to: set![src],
            message_type: 13,
            data: player_information_body(entries_of(outcome.state, game.players)),
        },
        ActionModel::Send {
            to: addrs_of(room.players),
            message_type: 12,
            data: join_game_body(client.username, client.ping, client.user_id, client.conn_type),
        },
    ]);
}

/// The others than the last of a list are all before it.
proof fn lemma_others(players: Seq<PlayerModel>, last: PlayerModel, src: u64)
    requires
        last.addr == src,
        forall|i: int| 0 <= i < players.len() ==> (#[trigger] players[i]).addr != src,
    ensures
        players.push(last).filter(|p: PlayerModel| p.addr != src) == players,
    decreases players.len(),
{
    reveal(Seq::filter);
    let pred = |p: PlayerModel| p.addr != src;
    assert(players.push(last).drop_last() =~= players);
    lemma_all_others(players, src);
}

proof fn lemma_all_others(players: Seq<PlayerModel>, src: u64)
    requires
        forall|i: int| 0 <= i < players.len() ==> (#[trigger] players[i]).addr != src,
    ensures
        players.filter(|p: PlayerModel| p.addr != src) == players,
    decreases players.len(),
{
    reveal(Seq::filter);
    if players.len() > 0 {
        let front = players.drop_last();
        assert forall|i: int| 0 <= i < front.len() implies (#[trigger] front[i]).addr != src by {
            assert(front[i] == players[i]);
        }
        lemma_all_others(front, src);
        assert(players[players.len() - 1].addr != src);
        assert(front.push(players.last()) =~= players);
    }
}

/// Who is on the list of a room already, having left its game, is not listed twice:
/// the room stays as it is, and the client says to be in it.
pub proof fn law_joining_twice_lists_once(
    m: ServerModel,
    src: u64,
    game_id: u32,
    text: Seq<u8>,
    tail: Seq<u8>,
)
    requires
        plain(text),
        m.client(src) matches Some(client) && client.game_id is None,
        m.game(game_id) matches Some(game) && exists|i: int|
            0 <= i < game.players.len() && (#[trigger] game.players[i]).addr == src,
    ensures
        ({
            let client = m.client(src)->0;
            let outcome = join_game_outcome(m, src, terminated(text) + le32(game_id) + tail);
            &&& outcome.state.game(game_id) == m.game(game_id)
            &&& outcome.state.client(src) == Some(
                ClientModel { game_id: Some(game_id), ..client },
            )
        }),
{
    let data = terminated(text) + le32(game_id) + tail;
    assert(data =~= terminated(text) + (le32(game_id) + tail));
    law_string_is_read_back(text, le32(game_id) + tail);
    law_le32_is_read_back(game_id, tail);
    assert(requested_game(data) == game_id);
    let game = m.games[game_id];
    assert(has_addr(game.players, src));
}

/// Opening a room under the name that the request gives, cut to 127 bytes: it has the
/// next number, waits, has four seats, and its creator is alone on its list and owns
/// it. No other room and no other client changes. Everybody hears of the new room and
/// its state; the creator gets an empty list of others and hears that it joined.
pub proof fn law_opening_a_room(
    m: ServerModel,
    src: u64,
    text: Seq<u8>,
    name: Seq<u8>,
    tail: Seq<u8>,
)
    requires
        plain(text),
        plain(name),
        m.client(src) matches Some(client) && client.game_id is None,
    ensures
        ({
            let client = m.client(src)->0;
            let outcome = create_game_outcome(
                m,
                src,
                terminated(text) + terminated(name) + tail,
            );
            let game_id = m.next_game_id;
            let room = outcome.state.games[game_id];
            let entered = ClientModel { game_id: Some(game_id), ..client };
            &&& outcome.result is Ok
            &&& outcome.state == (ServerModel {
                by_id: m.by_id.insert(m.by_addr[src], entered),
                games: m.games.insert(game_id, room),
                next_game_id: outcome.state.next_game_id,
                ..m
            })
            &&& outcome.state.next_game_id == (game_id + 1) % 0x1_0000_0000
            &&& room.game_id == game_id
            &&& room.game_name == if name.len() <= 127 {
                name
            } else {
                name.take(127)
            }
            &&& room.emulator_name == client.emulator_name
            &&& room.owner == client.username
            &&& room.owner_user_id == client.user_id
            &&& room.num_players == 1
            &&& room.max_players == 4
            &&& room.game_status == 0
            &&& room.sync is None
            &&& room.players.len() == 1
            &&& newcomer(src, client, room.players[0])
            &&& outcome.actions == seq![
                ActionModel::Send {
                    to: m.by_addr.dom(),
                    message_type: 10,
                    data: new_game_body(
                        client.username,
                        room.game_name,
                        client.emulator_name,
                        game_id,
                    ),
                },
                room_news(m, room),
                ActionModel::Send {
                    to: set![src],
                    message_type: 13,
                    data: player_information_body(Seq::empty()),
                },
                ActionModel::Send {
                    to: set![src],
                    message_type: 12,
                    data: join_game_body(
                        client.username,
                        client.ping,
                        client.user_id,
                        client.conn_type,
                    ),
                },
            ]
        }),
{
    let client = m.client(src)->0;
    let data = terminated(text) + terminated(name) + tail;
    assert(data =~= terminated(text) + (terminated(name) + tail));
    law_string_is_read_back(text, terminated(name) + tail);
    law_string_is_read_back(name, tail);
    assert(first_string(after_string(data)) == name);
    let outcome = create_game_outcome(m, src, data);
    let room = outcome.state.games[m.next_game_id];
    law_player_list_has_all_others(outcome.state, room.players, src);
    assert(room.players =~= Seq::<PlayerModel>::empty().push(room.players[0]));
    lemma_others(Seq::empty(), room.players[0], src);
    assert(other_players(outcome.state, room.players, src) =~= Seq::empty());
    assert(outcome.actions[2] == (ActionModel::Send {
        to: set![src],
        message_type: 13,
        data: player_information_body(Seq::empty()),
    }));
}

/// Who says to be in a waiting room that does not list it, as after a kick, just goes
/// back to the lobby: nobody is taken off the list.
pub proof fn law_leaving_unlisted(m: ServerModel, src: u64, game_id: u32)
    requires
        m.client(src) matches Some(client) && client.game_id == Some(game_id),
        m.game(game_id) matches Some(game) && game.sync is None && game.players.len() > 0
            && forall|i: int|
            0 <= i < game.players.len() ==> (#[trigger] game.players[i]).addr != src,
    ensures
        ({
            let client = m.client(src)->0;
            let game = m.games[game_id];
            let outcome = quit_game_outcome(m, src);
            let room = outcome.state.games[game_id];
            &&& outcome.result is Ok
            &&& outcome.state == (ServerModel {
                by_id: m.by_id.insert(m.by_addr[src], sent_back(client)),
                games: m.games.insert(game_id, room),
                ..m
            })
            &&& room == (GameModel {
                num_players: (game.players.len() % 256) as u8,
                owner: room.owner,
                owner_user_id: room.owner_user_id,
                ..game
            })
            &&& rightly_owned(game.players, game, room)
        }),
{
    let game = m.games[game_id];
    assert(!has_addr(game.players, src));
    let left = vacated(game, src);
    law_first_who_stays_takes_over(left);
}

/// A request to kick gives the number of the user behind a string, and is looked up
/// among the users who are logged in.
pub proof fn law_kick_goes_by_the_user_number(text: Seq<u8>, user_id: u16, tail: Seq<u8>)
    requires
        plain(text),
    ensures
        kick_target(terminated(text) + le16(user_id) + tail) == user_id,
        kick_request_complete(terminated(text) + le16(user_id) + tail),
{
    let data = terminated(text) + le16(user_id) + tail;
    assert(data =~= terminated(text) + (le16(user_id) + tail));
    law_string_is_read_back(text, le16(user_id) + tail);
    law_le16_is_read_back(user_id, tail);
}

/// Requests that are complete are accepted: one to join with a string, the number of
/// the room, a string and seven bytes, as long as the room can count one more; one to
/// start with a string and four bytes; input with its length and as many bytes, or
/// with a position; and a ready signal of at least one byte.
pub proof fn law_complete_requests_are_accepted(
    m: ServerModel,
    src: u64,
    message: MessageModel,
    text: Seq<u8>,
    game_id: u32,
    other: Seq<u8>,
    tail: Seq<u8>,
)
    requires
        plain(text),
        plain(other),
    ensures
        message.message_type == 12 && tail.len() >= 7 && message.data == terminated(text) + le32(
            game_id,
        ) + terminated(other) + tail && (m.game(game_id) matches Some(game) ==> game.num_players
            < 255) ==> acceptable(m, src, message),
        message.message_type == 17 && tail.len() >= 4 && message.data == terminated(text) + tail
            ==> acceptable(m, src, message),
        message.message_type == 18 && other.len() < 65536 && message.data == game_data_body(other)
            + tail ==> acceptable(m, src, message),
        message.message_type == 19 && message.data.len() >= 2 ==> acceptable(m, src, message),
        message.message_type == 21 && message.data.len() >= 1 ==> acceptable(m, src, message),
        message.message_type == 1 || message.message_type == 3 || message.message_type == 7
            || message.message_type == 8 || message.message_type == 9 || message.message_type == 10
            || message.message_type == 11 || message.message_type == 20 ==> acceptable(
            m,
            src,
            message,
        ),
        message.message_type == 15 && message.data == terminated(text) + tail && tail.len() >= 2
            && (forall|g: u32| #[trigger]
            m.games.dom().contains(g) ==> m.games[g].num_players > 0) ==> acceptable(
            m,
            src,
            message,
        ),
        message.message_type == 6 && (m.client(src) matches Some(client) ==> client.ack_count
            < u16::MAX) ==> acceptable(m, src, message),
{
    if message.message_type == 12 && tail.len() >= 7 && message.data == terminated(text) + le32(
        game_id,
    ) + terminated(other) + tail {
        let rest = le32(game_id) + (terminated(other) + tail);
        assert(message.data =~= terminated(text) + rest);
        law_string_is_read_back(text, rest);
        law_le32_is_read_back(game_id, terminated(other) + tail);
        law_string_is_read_back(other, tail);
    }
    if message.data == terminated(text) + tail {
        law_string_is_read_back(text, tail);
    }
    if message.message_type == 18 && other.len() < 65536 && message.data == game_data_body(other)
        + tail {
        let len = other.len() as u16;
        assert(message.data.skip(1) =~= le16(len) + (other + tail));
        law_le16_is_read_back(len, other + tail);
    }
}

/// Who is on the list of the room that it says it is in opens and joins no other.
pub proof fn law_one_room_for_each(m: ServerModel, src: u64, game_id: u32, slot: int, data: Seq<u8>)
    requires
        m.client(src) matches Some(client) && client.game_id == Some(game_id),
        m.game(game_id) matches Some(game) && 0 <= slot < game.players.len()
            && game.players[slot].addr == src,
    ensures
        create_game_outcome(m, src, data).state == m,
        create_game_outcome(m, src, data).actions == Seq::<ActionModel>::empty(),
        create_game_outcome(m, src, data).result is Ok,
        join_game_outcome(m, src, data).state == m,
        join_game_outcome(m, src, data).actions == Seq::<ActionModel>::empty(),
        join_game_outcome(m, src, data).result is Ok,
{
    assert(has_addr(m.games[game_id].players, src));
}

/// Who says to be in a room that is gone or does not list it opens a room as if it
/// were in none, but joins none.
pub proof fn law_stale_room_is_forgotten(m: ServerModel, src: u64, data: Seq<u8>)
    requires
        m.client(src) matches Some(client) && (client.game_id matches Some(game_id) && (m.game(
            game_id,
        ) matches Some(game) ==> forall|i: int|
            0 <= i < game.players.len() ==> (#[trigger] game.players[i]).addr != src)),
    ensures
        ({
            let client = m.client(src)->0;
            let free = ServerModel {
                by_id: m.by_id.insert(m.by_addr[src], ClientModel { game_id: None, ..client }),
                ..m
            };
            &&& create_game_outcome(m, src, data).state == create_game_outcome(
                free,
                src,
                data,
            ).state
            &&& create_game_outcome(m, src, data).actions == create_game_outcome(
                free,
                src,
                data,
            ).actions
            &&& create_game_outcome(m, src, data).result is Ok
            &&& join_game_outcome(m, src, data).state == m
            &&& join_game_outcome(m, src, data).actions == Seq::<ActionModel>::empty()
        }),
{
    let client = m.client(src)->0;
    let free = ServerModel {
        by_id: m.by_id.insert(m.by_addr[src], ClientModel { game_id: None, ..client }),
        ..m
    };
    assert(free.client(src) == Some(ClientModel { game_id: None, ..client }));
}

/// Joining a room that does not exist fails, and all the client gets is the number.
pub proof fn law_joining_no_room_fails(
    m: ServerModel,
    src: u64,
    game_id: u32,
    text: Seq<u8>,
    tail: Seq<u8>,
)
    requires
        plain(text),
        m.client(src) matches Some(client) && client.game_id is None,
        m.game(game_id) is None,
    ensures
        ({
            let outcome = join_game_outcome(m, src, terminated(text) + le32(game_id) + tail);
            &&& outcome.result == Err::<(), ServerError>(ServerError::GameNotFound)
            &&& outcome.actions == Seq::<ActionModel>::empty()
            &&& outcome.state == (ServerModel {
                by_id: m.by_id.insert(
                    m.by_addr[src],
                    ClientModel { game_id: Some(game_id), ..m.client(src)->0 },
                ),
                ..m
            })
        }),
{
    let data = terminated(text) + le32(game_id) + tail;
    assert(data =~= terminated(text) + (le32(game_id) + tail));
    law_string_is_read_back(text, le32(game_id) + tail);
    law_le32_is_read_back(game_id, tail);
}

/// The requests of who is not logged in fail, change nothing but the number of the
/// next room, and nobody hears of them.
pub proof fn law_strangers_requests_fail(
    m: ServerModel,
    src: u64,
    data: Seq<u8>,
    found: Option<u64>,
)
    requires
        m.client(src) is None,
    ensures
        ({
            let unknown = Err::<(), ServerError>(ServerError::ClientNotFound);
            let silent = Seq::<ActionModel>::empty();
            let create = create_game_outcome(m, src, data);
            let join = join_game_outcome(m, src, data);
            let start = start_game_outcome(m, src);
            let kick = kick_outcome(m, src, found);
            let chat = game_chat_outcome(m, src, data);
            let ready = ready_outcome(m, src);
            &&& create.result == unknown && create.actions == silent
            &&& create.state == (ServerModel { next_game_id: create.state.next_game_id, ..m })
            &&& join.result == unknown && join.actions == silent && join.state == m
            &&& start.result == unknown && start.actions == silent && start.state == m
            &&& kick.result == unknown && kick.actions == silent && kick.state == m
            &&& chat.result == unknown && chat.actions == silent && chat.state == m
            &&& ready.result == unknown && ready.actions == silent && ready.state == m
        }),
{
}

/// The requests of who is in no room, or in one that is gone, fail, and nobody hears
/// of them. Only a ready signal leaves a trace: its sender waits.
pub proof fn law_requests_from_the_lobby_fail(
    m: ServerModel,
    src: u64,
    data: Seq<u8>,
    found: Option<u64>,
)
    requires
        m.client(src) matches Some(client) && client.player_status != 0 && (
        client.game_id matches Some(game_id) ==> !m.games.dom().contains(game_id)),
    ensures
        ({
            let client = m.client(src)->0;
            let error = Err::<(), ServerError>(
                if client.game_id is None {
                    ServerError::NotInGame
                } else {
                    ServerError::GameNotFound
                },
            );
            let silent = Seq::<ActionModel>::empty();
            let start = start_game_outcome(m, src);
            let kick = kick_outcome(m, src, found);
            let chat = game_chat_outcome(m, src, data);
            let ready = ready_outcome(m, src);
            &&& start.result == error && start.actions == silent && start.state == m
            &&& kick.result == error && kick.actions == silent && kick.state == m
            &&& chat.result == error && chat.actions == silent && chat.state == m
            &&& ready.result == error && ready.actions == silent
            &&& ready.state == (ServerModel {
                by_id: m.by_id.insert(
                    m.by_addr[src],
                    ClientModel { player_status: 2, ..client },
                ),
                ..m
            })
        }),
{
}

/// The owner's kick of who says to be in the waiting room but is not on its list, as
/// after another kick, changes nothing; the room hears of it all the same.
pub proof fn law_kick_of_who_is_not_listed(m: ServerModel, src: u64, target: u64, game_id: u32)
    requires
        m.client(src) matches Some(client) && client.game_id == Some(game_id) && (m.game(
            game_id,
        ) matches Some(game) && has_addr(game.players, src) && game.owner_user_id
            == client.user_id && game.sync is None && forall|i: int|
            0 <= i < game.players.len() ==> (#[trigger] game.players[i]).addr != target),
        m.client(target) matches Some(kicked) && kicked.game_id == Some(game_id),
    ensures
        ({
            let outcome = kick_outcome(m, src, Some(target));
            let room = m.games[game_id];
            &&& outcome.result is Ok
            &&& outcome.state == m
            &&& outcome.actions == seq![room_news(m, room), quit_news(room, m.client(target)->0)]
        }),
{
    let room = m.games[game_id];
    assert(!has_addr(room.players, target));
    lemma_addrs_of(room.players);
    assert(m.games.insert(game_id, room) =~= m.games);
    let outcome = kick_outcome(m, src, Some(target));
    assert(outcome.actions =~= seq![room_news(m, room), quit_news(room, m.client(target)->0)]);
}

} // verus!
