//! What a live game does to its room: how it starts, what an input, a drop, a quit or
//! a kick sends, and how it ends.

use vstd::prelude::*;
#[allow(unused_imports)]
use vstd::utf8::encode_utf8;
#[allow(unused_imports)]
use crate::packet_util::{
    chat_body, close_game_body, drop_game_body, game_cache_body, game_data_body, game_status_body,
    quit_game_body, start_game_body,
};
#[allow(unused_imports)]
use crate::simplest_game_sync::cached::lemma_after_drop_keeps;
#[allow(unused_imports)]
use crate::simplest_game_sync::delayed::DelayedModel;
#[allow(unused_imports)]
use crate::simplest_game_sync::delay_laws::law_dropping_twice_is_dropping_once;
#[allow(unused_imports)]
use crate::simplest_game_sync::types::{CachedOutputModel, InputModel, ResponseModel};
#[allow(unused_imports)]
use crate::state::{
    has_addr, lemma_slot_unique, ClientModel, GameModel, PlayerModel, ServerError, ServerModel,
    PLAYER_STATUS_IDLE, PLAYER_STATUS_NET_SYNC,
};
#[allow(unused_imports)]
use super::game::{
    all_dropped, back_in_lobby, drop_game_outcome, drop_outcome, ended_game, kick_outcome,
    quit_game_outcome, quit_live_outcome, start_game_outcome, started_game, tombstoned,
};
#[allow(unused_imports)]
use super::laws::{
    law_a_drop_sends_what_it_releases, law_every_output_is_delivered, lemma_tombstoned_wf,
};
#[allow(unused_imports)]
use super::outputs::output_actions;
#[allow(unused_imports)]
use super::room::{lemma_lan_drop, mark_players, new_owner, not_ready, present, with_present_owner};
#[allow(unused_imports)]
use super::room_laws::{
    addrs_of, host_is_gone, host_news, law_first_who_stays_takes_over, lemma_addrs_of,
    lemma_present_is_filter, quit_news, rightly_owned, room_news, sent_back,
};
#[allow(unused_imports)]
use super::sync::{game_cache_outcome, game_data_outcome, input_outcome, ready_outcome};
#[allow(unused_imports)]
use super::util::ActionModel;

verus! {

/// Somebody on the list is logged in under this session identifier.
pub open spec fn listed_session(m: ServerModel, players: Seq<PlayerModel>, id: u128) -> bool {
    exists|i: int|
        0 <= i < players.len() && m.by_addr.dom().contains((#[trigger] players[i]).addr)
            && m.by_addr[players[i].addr] == id
}

/// Between two states, exactly the sessions of the players on the list have got this
/// status, and nothing else of any session changed.
pub open spec fn status_given(
    before: ServerModel,
    after: ServerModel,
    players: Seq<PlayerModel>,
    status: u8,
) -> bool {
    &&& after.by_addr == before.by_addr
    &&& after.by_id.dom() == before.by_id.dom()
    &&& forall|id: u128|
        before.by_id.dom().contains(id) ==> #[trigger] after.by_id[id] == (ClientModel {
            player_status: if listed_session(before, players, id) {
                status
            } else {
                before.by_id[id].player_status
            },
            ..before.by_id[id]
        })
}

/// Giving players a status reaches exactly their sessions.
proof fn lemma_status_given(m: ServerModel, players: Seq<PlayerModel>, status: u8, n: nat)
    requires
        n <= players.len(),
    ensures
        ({
            let after = mark_players(m, players, status, n);
            &&& status_given(m, after, players.take(n as int), status)
            &&& after == (ServerModel { by_id: after.by_id, ..m })
        }),
    decreases n,
{
    let listed = players.take(n as int);
    let after = mark_players(m, players, status, n);
    if n > 0 {
        let front = players.take(n - 1);
        lemma_status_given(m, players, status, (n - 1) as nat);
        let before = mark_players(m, players, status, (n - 1) as nat);
        let addr = players[n - 1].addr;
        assert(after.by_id.dom() =~= m.by_id.dom());
        assert forall|id: u128| m.by_id.dom().contains(id) implies #[trigger] after.by_id[id] == (
        ClientModel {
            player_status: if listed_session(m, listed, id) {
                status
            } else {
                m.by_id[id].player_status
            },
            ..m.by_id[id]
        }) by {
            assert(before.by_id[id] == (ClientModel {
                player_status: if listed_session(m, front, id) {
                    status
                } else {
                    m.by_id[id].player_status
                },
                ..m.by_id[id]
            }));
            if listed_session(m, front, id) {
                let i = choose|i: int|
                    0 <= i < front.len() && m.by_addr.dom().contains((#[trigger] front[i]).addr)
                        && m.by_addr[front[i].addr] == id;
                assert(listed[i] == front[i]);
            }
            if listed_session(m, listed, id) {
                let i = choose|i: int|
                    0 <= i < listed.len() && m.by_addr.dom().contains((#[trigger] listed[i]).addr)
                        && m.by_addr[listed[i].addr] == id;
                if i < n - 1 {
                    assert(front[i] == listed[i]);
                }
            }
            assert(listed[n - 1].addr == addr);
        }
    } else {
        assert(listed.len() == 0);
    }
}

/// The messages that carry these outputs: each to the player in the slot it was
/// combined for, as game data or as a position.
pub open spec fn frames_out(
    players: Seq<PlayerModel>,
    outputs: Seq<CachedOutputModel>,
) -> Seq<ActionModel> {
    Seq::new(
        outputs.len(),
        |k: int|
            ActionModel::Send {
                to: set![players[outputs[k].player_id as int].addr],
                message_type: match outputs[k].response {
                    ResponseModel::GameData(_) => 18,
                    ResponseModel::GameCache(_) => 19,
                },
                data: match outputs[k].response {
                    ResponseModel::GameData(data) => game_data_body(data),
                    ResponseModel::GameCache(position) => game_cache_body(position),
                },
            },
    )
}

proof fn lemma_frames_out(players: Seq<PlayerModel>, outputs: Seq<CachedOutputModel>)
    ensures
        output_actions(players, outputs) == frames_out(players, outputs),
{
    assert(output_actions(players, outputs) =~= frames_out(players, outputs));
}

/// Everybody but the player in `slot` is dropped.
pub open spec fn last_one(sync: DelayedModel, slot: int) -> bool {
    forall|p: int|
        0 <= p < sync.inner.sync.dropped.len() && p != slot
            ==> #[trigger] sync.inner.sync.dropped[p]
}

/// When the player in `slot` is dropped, everybody is exactly if it was the last one.
proof fn lemma_last_one(sync: DelayedModel, slot: int)
    requires
        sync.wf(),
        0 <= slot < sync.players(),
    ensures
        all_dropped(sync.after_drop(slot)) == last_one(sync, slot),
        sync.after_drop(slot).players() == sync.players(),
{
    law_dropping_twice_is_dropping_once(sync, slot);
    lemma_after_drop_keeps(sync.inner, slot);
    let after = sync.after_drop(slot);
    assert(after.inner.sync.dropped == sync.inner.sync.dropped.update(slot, true));
    if all_dropped(after) {
        assert forall|p: int| 0 <= p < sync.inner.sync.dropped.len() && p != slot implies
            #[trigger] sync.inner.sync.dropped[p] by {
            assert(after.inner.sync.dropped[p]);
        }
    }
    if last_one(sync, slot) {
        assert forall|p: int| 0 <= p < after.players() implies
            #[trigger] after.inner.sync.dropped[p] by {
            if p != slot {
                assert(sync.inner.sync.dropped[p]);
            }
        }
    }
}

/// The room of a live game after the player in `slot` dropped out: the game goes on
/// without it, or is over, and then the room waits with who has not left.
pub open spec fn dropped_room(game: GameModel, slot: int, room: GameModel) -> bool {
    let sync = game.sync->0;
    let stay = game.players.filter(|p: PlayerModel| !p.left_room);
    if last_one(sync, slot) {
        &&& room == (GameModel {
            players: stay,
            num_players: (stay.len() % 256) as u8,
            game_status: 0,
            sync: None,
            owner: room.owner,
            owner_user_id: room.owner_user_id,
            ..game
        })
        &&& rightly_owned(stay, game, room)
    } else {
        room == (GameModel { sync: Some(sync.after_drop(slot)), ..game })
    }
}

/// What is sent when the player in `slot` drops out and the room stays: who dropped
/// out, to the room; when the game is over, the state of the room, to all; and the
/// frames that the others were waiting for.
pub open spec fn drop_news(
    m: ServerModel,
    game: GameModel,
    room: GameModel,
    client: ClientModel,
    slot: int,
) -> Seq<ActionModel> {
    seq![
        ActionModel::Send {
            to: addrs_of(room.players),
            message_type: 20,
            data: drop_game_body(client.username, ((slot + 1) % 256) as u8),
        },
    ] + (if last_one(game.sync->0, slot) {
        seq![room_news(m, room)]
    } else {
        Seq::empty()
    }) + frames_out(game.players, (game.sync->0).inner.drop_responses(slot))
}

/// What everybody hears when a room closes because everybody left its game: that
/// nobody is in it, and that it closed.
pub open spec fn close_news(m: ServerModel, game: GameModel) -> Seq<ActionModel> {
    seq![
        ActionModel::Send {
            to: m.by_addr.dom(),
            message_type: 14,
            data: game_status_body(game.game_id, 0, 0, game.max_players),
        },
        ActionModel::Send {
            to: m.by_addr.dom(),
            message_type: 16,
            data: close_game_body(game.game_id),
        },
    ]
}

/// Dropping out of a live game. Nobody is taken off the list while the game goes on;
/// when everybody dropped, the room waits again with who has not left, or closes when
/// everybody left. Everybody who was listed is idle. The room hears who dropped out,
/// by name and player number, and every frame that was held up goes out.
pub proof fn law_dropping_out(m: ServerModel, game_id: u32, src: u64, slot: int)
    requires
        m.wf(),
        m.client(src) is Some,
        m.game(game_id) matches Some(game) && (game.sync matches Some(sync) && 0 <= slot
            < sync.players() && slot < game.players.len() && game.players[slot].addr == src),
    ensures
        ({
            let game = m.games[game_id];
            let client = m.client(src)->0;
            let stay = game.players.filter(|p: PlayerModel| !p.left_room);
            let outcome = drop_outcome(m, game_id, src);
            let room = outcome.state.games[game_id];
            &&& outcome.result == Ok::<bool, ServerError>(true)
            &&& outcome.state == (ServerModel {
                by_id: outcome.state.by_id,
                games: outcome.state.games,
                ..m
            })
            &&& if last_one(game.sync->0, slot) && stay.len() == 0 {
                &&& outcome.state.games == m.games.remove(game_id)
                &&& outcome.state.by_id == m.by_id
                &&& outcome.actions == close_news(m, game)
            } else {
                &&& outcome.state.games == m.games.insert(game_id, room)
                &&& dropped_room(game, slot, room)
                &&& status_given(m, outcome.state, game.players, 1)
                &&& outcome.actions == drop_news(m, game, room, client, slot)
            }
        }),
{
    let game = m.games[game_id];
    let client = m.client(src)->0;
    let sync = game.sync->0;
    let n = game.players.len();
    assert(game.wf());
    lemma_slot_unique(game, src, slot);
    assert(game.slot_of(src) == Some(slot));
    lemma_last_one(sync, slot);
    lemma_present_is_filter(game.players);
    lemma_lan_drop(sync, slot);
    law_a_drop_sends_what_it_releases(m, game_id, src);
    let stay = game.players.filter(|p: PlayerModel| !p.left_room);
    let outcome = drop_outcome(m, game_id, src);
    let room = outcome.state.games[game_id];
    lemma_addrs_of(room.players);
    lemma_frames_out(game.players, sync.inner.drop_responses(slot));
    assert(game.players.take(n as int) =~= game.players);
    if last_one(sync, slot) {
        let ended = ended_game(game);
        let over = m.with_game(game_id, ended);
        law_first_who_stays_takes_over(
            GameModel {
                game_status: 0,
                sync: None,
                players: stay,
                num_players: (stay.len() % 256) as u8,
                ..game
            },
        );
        lemma_status_given(over, game.players, PLAYER_STATUS_IDLE, n);
        if stay.len() == 0 {
            assert(outcome.state.games =~= m.games.remove(game_id));
            assert(outcome.actions =~= close_news(m, game));
        }
    } else {
        let going_on = m.with_game(
            game_id,
            GameModel { sync: Some(sync.after_drop(slot)), ..game },
        );
        lemma_status_given(going_on, game.players, PLAYER_STATUS_IDLE, n);
    }
    if !(last_one(sync, slot) && stay.len() == 0) {
        let marked = outcome.state;
        assert forall|id: u128| listed_session(m, game.players, id) == listed_session(
            m.with_game(game_id, room),
            game.players,
            id,
        ) by {}
        assert(status_given(m, outcome.state, game.players, 1));
        assert(outcome.actions =~= drop_news(m, game, room, client, slot));
    }
}

/// A request to drop out is ignored where the client is in no room, the room is gone
/// or does not list it, or no game is live.
pub proof fn law_nothing_to_drop_out_of(m: ServerModel, src: u64)
    requires
        m.client(src) matches Some(client) ==> (client.game_id matches Some(game_id) ==> (m.game(
            game_id,
        ) matches Some(game) ==> game.sync is None || forall|i: int|
            0 <= i < game.players.len() ==> (#[trigger] game.players[i]).addr != src)),
    ensures
        drop_game_outcome(m, src).state == m,
        drop_game_outcome(m, src).actions == Seq::<ActionModel>::empty(),
        drop_game_outcome(m, src).result is Ok,
{
}

/// A request to drop out drops the client out of the room that it is in.
pub proof fn law_drop_request_drops_out(m: ServerModel, src: u64, game_id: u32, slot: int)
    requires
        m.client(src) matches Some(client) && client.game_id == Some(game_id),
        m.game(game_id) matches Some(game) && 0 <= slot < game.players.len()
            && game.players[slot].addr == src,
    ensures
        drop_game_outcome(m, src).state == drop_outcome(m, game_id, src).state,
        drop_game_outcome(m, src).actions == drop_outcome(m, game_id, src).actions,
        drop_game_outcome(m, src).result is Ok <==> drop_outcome(m, game_id, src).result is Ok,
{
    let game = m.games[game_id];
    assert(has_addr(game.players, src));
}

/// The list of a live game once the player in `slot` is marked as gone.
pub open spec fn with_gone(players: Seq<PlayerModel>, slot: int) -> Seq<PlayerModel> {
    players.update(slot, PlayerModel { left_room: true, ..players[slot] })
}

/// The room of a live game once the player in `slot` left it, before the game hears
/// of it: the player keeps its slot, is marked as gone and is not counted, and the
/// first who stays owns the room if the owner left.
pub open spec fn left_in_play(game: GameModel, slot: int, room: GameModel) -> bool {
    let players = with_gone(game.players, slot);
    let stay = players.filter(|p: PlayerModel| !p.left_room);
    &&& room == (GameModel {
        players,
        num_players: (stay.len() % 256) as u8,
        owner: room.owner,
        owner_user_id: room.owner_user_id,
        ..game
    })
    &&& rightly_owned(players, game, room)
}

proof fn lemma_left_in_play(game: GameModel, src: u64, slot: int)
    requires
        game.wf(),
        0 <= slot < game.players.len(),
        game.players[slot].addr == src,
    ensures
        left_in_play(game, slot, with_present_owner(tombstoned(game, src))),
        with_present_owner(tombstoned(game, src)).wf(),
        new_owner(tombstoned(game, src)) is Some <==> host_is_gone(
            with_gone(game.players, slot),
            game,
        ),
        new_owner(tombstoned(game, src)) matches Some(player) ==> player.username
            == with_present_owner(tombstoned(game, src)).owner,
{
    lemma_slot_unique(game, src, slot);
    let marked = tombstoned(game, src);
    lemma_tombstoned_wf(game, src);
    lemma_present_is_filter(marked.players);
    law_first_who_stays_takes_over(marked);
}

/// Whoever leaves a live game, of its own or kicked: its client is back in the lobby;
/// it keeps its slot, marked as gone, so that nobody's slot moves; the game goes on
/// without it, or is over; and the room hears that it dropped out and that it left,
/// and everybody how many stay. The first who stays takes over from an owner who left,
/// and the room hears of it. A room that everybody left is gone, and all hear of it.
pub open spec fn leaves_a_live_game(
    m: ServerModel,
    game_id: u32,
    who: u64,
    slot: int,
    after: ServerModel,
    actions: Seq<ActionModel>,
) -> bool {
    let client = m.client(who)->0;
    let game = m.games[game_id];
    let lobby = ServerModel { by_id: m.by_id.insert(m.by_addr[who], sent_back(client)), ..m };
    let stay = with_gone(game.players, slot).filter(|p: PlayerModel| !p.left_room);
    &&& after == (ServerModel { by_id: after.by_id, games: after.games, ..m })
    &&& if last_one(game.sync->0, slot) && stay.len() == 0 {
        &&& after.games == m.games.remove(game_id)
        &&& after.by_id == lobby.by_id
        &&& actions == close_news(m, game).push(
            ActionModel::Send {
                to: m.by_addr.dom(),
                message_type: 11,
                data: quit_game_body(client.username, client.user_id),
            },
        )
    } else {
        exists|left: GameModel|
            {
                let room = after.games[game_id];
                &&& #[trigger] left_in_play(game, slot, left)
                &&& after.games == m.games.insert(game_id, room)
                &&& dropped_room(left, slot, room)
                &&& status_given(lobby, after, game.players, 1)
                &&& actions == drop_news(m, left, room, client, slot) + seq![
                    room_news(m, room),
                    quit_news(room, client),
                ] + (if host_is_gone(with_gone(game.players, slot), game) {
                    seq![
                        ActionModel::Send {
                            to: addrs_of(room.players),
                            message_type: 8,
                            data: chat_body(
                                encode_utf8("Server"@),
                                encode_utf8(
                                    crate::text::log_text(left.owner) + " is now the room host"@,
                                ),
                            ),
                        },
                    ]
                } else {
                    Seq::empty()
                })
            }
    }
}

proof fn lemma_leaves_a_live_game(m: ServerModel, game_id: u32, who: u64, slot: int)
    requires
        m.wf(),
        m.client(who) is Some,
        m.game(game_id) matches Some(game) && (game.sync matches Some(sync) && 0 <= slot
            < sync.players() && slot < game.players.len() && game.players[slot].addr == who),
    ensures
        ({
            let client = m.client(who)->0;
            let outcome = quit_live_outcome(
                m.with_client(who, back_in_lobby(client)),
                game_id,
                m.games[game_id],
                who,
                client,
            );
            &&& outcome.result is Ok
            &&& leaves_a_live_game(m, game_id, who, slot, outcome.state, outcome.actions)
        }),
{
    let client = m.client(who)->0;
    let game = m.games[game_id];
    assert(game.wf());
    let lobby = m.with_client(who, back_in_lobby(client));
    let left = with_present_owner(tombstoned(game, who));
    lemma_left_in_play(game, who, slot);
    let open = lobby.with_game(game_id, left);
    assert(open.wf());
    assert(open.client(who) == Some(back_in_lobby(client)));
    law_dropping_out(open, game_id, who, slot);
    let dropped = drop_outcome(open, game_id, who);
    let outcome = quit_live_outcome(lobby, game_id, game, who, client);
    let room = outcome.state.games[game_id];
    let stay = with_gone(game.players, slot).filter(|p: PlayerModel| !p.left_room);
    assert(left.players == with_gone(game.players, slot));
    if last_one(game.sync->0, slot) && stay.len() == 0 {
        assert(outcome.state.games =~= m.games.remove(game_id));
        assert(outcome.state.game(game_id) is None);
        let quit = ActionModel::Send {
            to: m.by_addr.dom(),
            message_type: 11,
            data: quit_game_body(client.username, client.user_id),
        };
        assert(outcome.actions =~= dropped.actions.push(quit));
        assert(leaves_a_live_game(m, game_id, who, slot, outcome.state, outcome.actions));
    } else {
        lemma_addrs_of(room.players);
        assert(outcome.state.games =~= m.games.insert(game_id, room));
        assert forall|id: u128| listed_session(lobby, game.players, id) == listed_session(
            open,
            left.players,
            id,
        ) by {
            if listed_session(lobby, game.players, id) {
                let i = choose|i: int|
                    0 <= i < game.players.len() && lobby.by_addr.dom().contains(
                        (#[trigger] game.players[i]).addr,
                    ) && lobby.by_addr[game.players[i].addr] == id;
                assert(left.players[i].addr == game.players[i].addr);
            }
            if listed_session(open, left.players, id) {
                let i = choose|i: int|
                    0 <= i < left.players.len() && open.by_addr.dom().contains(
                        (#[trigger] left.players[i]).addr,
                    ) && open.by_addr[left.players[i].addr] == id;
                assert(left.players[i].addr == game.players[i].addr);
            }
        }
        assert(status_given(lobby, outcome.state, game.players, 1));
        assert(left_in_play(game, slot, left));
        let news = drop_news(m, left, room, client, slot);
        assert(dropped.actions == news);
        let host = if host_is_gone(with_gone(game.players, slot), game) {
            seq![
                ActionModel::Send {
                    to: addrs_of(room.players),
                    message_type: 8,
                    data: chat_body(
                        encode_utf8("Server"@),
                        encode_utf8(crate::text::log_text(left.owner) + " is now the room host"@),
                    ),
                },
            ]
        } else {
            Seq::empty()
        };
        assert(outcome.actions =~= news + seq![room_news(m, room), quit_news(room, client)] + host);
        assert(leaves_a_live_game(m, game_id, who, slot, outcome.state, outcome.actions));
    }
}

/// Leaving a live game.
pub proof fn law_leaving_a_live_game(m: ServerModel, src: u64, game_id: u32, slot: int)
    requires
        m.wf(),
        m.client(src) matches Some(client) && client.game_id == Some(game_id),
        m.game(game_id) matches Some(game) && (game.sync matches Some(sync) && 0 <= slot
            < sync.players() && slot < game.players.len() && game.players[slot].addr == src),
    ensures
        quit_game_outcome(m, src).result is Ok,
        leaves_a_live_game(
            m,
            game_id,
            src,
            slot,
            quit_game_outcome(m, src).state,
            quit_game_outcome(m, src).actions,
        ),
{
    lemma_leaves_a_live_game(m, game_id, src, slot);
}

/// Being kicked out of a live game by its owner is leaving it.
pub proof fn law_kicked_out_of_a_live_game(
    m: ServerModel,
    src: u64,
    target: u64,
    game_id: u32,
    slot: int,
)
    requires
        m.wf(),
        m.client(src) matches Some(client) && client.game_id == Some(game_id) && (m.game(
            game_id,
        ) matches Some(game) && has_addr(game.players, src) && game.owner_user_id
            == client.user_id),
        m.client(target) matches Some(kicked) && kicked.game_id == Some(game_id),
        m.games[game_id].sync matches Some(sync) && 0 <= slot < sync.players() && slot
            < m.games[game_id].players.len() && m.games[game_id].players[slot].addr == target,
    ensures
        kick_outcome(m, src, Some(target)).result is Ok,
        leaves_a_live_game(
            m,
            game_id,
            target,
            slot,
            kick_outcome(m, src, Some(target)).state,
            kick_outcome(m, src, Some(target)).actions,
        ),
{
    lemma_leaves_a_live_game(m, game_id, target, slot);
}

/// A game that has not begun: nobody is dropped, nothing waits and nothing is cached;
/// every player has the delay of its connection type and no startup delay.
pub open spec fn untouched(sync: DelayedModel, players: Seq<PlayerModel>) -> bool {
    let n = players.len();
    let inner = sync.inner;
    &&& inner.sync.delays == Seq::new(n, |i: int| players[i].conn_type as usize)
    &&& inner.sync.dropped == Seq::new(n, |i: int| false)
    &&& inner.sync.inputs == Seq::new(n, |i: int| Seq::<Seq<u8>>::empty())
    &&& inner.sync.buffers == Seq::new(n, |i: int| Seq::<Seq<u8>>::empty())
    &&& inner.sync.game_data_size == 0
    &&& inner.input_caches == Seq::new(n, |i: int| Seq::<Seq<u8>>::empty())
    &&& inner.output_caches == Seq::new(n, |i: int| Seq::<Seq<u8>>::empty())
    &&& sync.input_caches == Seq::new(n, |i: int| Seq::<Seq<u8>>::empty())
    &&& sync.queues == Seq::new(n, |i: int| Seq::<Seq<u8>>::empty())
    &&& sync.warmup_sent == Seq::new(n, |i: int| 0usize)
    &&& sync.total_delays == Seq::new(n, |i: int| 0usize)
    &&& sync.frame_size == 0
}

/// When the owner starts the game of a waiting room, everybody on its list who has
/// not left plays, in the same order and none of them ready yet; their sessions wait
/// for each other. Everybody hears of the room, and every player of its number, how
/// many play, and its delay. No other room changes.
pub proof fn law_starting_a_game(m: ServerModel, src: u64, game_id: u32)
    requires
        m.wf(),
        m.client(src) matches Some(client) && client.game_id == Some(game_id) && (m.game(
            game_id,
        ) matches Some(game) && game.sync is None && has_addr(game.players, src)
            && game.owner_user_id == client.user_id && game.players.len() <= usize::MAX),
    ensures
        ({
            let game = m.games[game_id];
            let stay = game.players.filter(|p: PlayerModel| !p.left_room);
            let outcome = start_game_outcome(m, src);
            let room = outcome.state.games[game_id];
            &&& outcome.result is Ok
            &&& outcome.state == (ServerModel {
                by_id: outcome.state.by_id,
                games: m.games.insert(game_id, room),
                ..m
            })
            &&& status_given(m, outcome.state, stay, 2)
            &&& room == (GameModel {
                players: Seq::new(
                    stay.len(),
                    |i: int| PlayerModel { ready: false, ..stay[i] },
                ),
                num_players: (stay.len() % 256) as u8,
                game_status: 1,
                sync: room.sync,
                ..game
            })
            &&& room.sync matches Some(sync) && untouched(sync, stay)
                && sync.inner.disable_output_cache == m.config.disable_output_cache
            &&& outcome.actions == seq![room_news(m, room)] + Seq::new(
                stay.len(),
                |i: int|
                    ActionModel::Send {
                        to: set![stay[i].addr],
                        message_type: 17,
                        data: start_game_body(
                            stay[i].conn_type as u16,
                            ((i + 1) % 256) as u8,
                            (stay.len() % 256) as u8,
                        ),
                    },
            )
        }),
{
    let game = m.games[game_id];
    let stay = game.players.filter(|p: PlayerModel| !p.left_room);
    lemma_present_is_filter(game.players);
    let started = started_game(game, m.config.disable_output_cache);
    let players = not_ready(stay);
    assert(players =~= Seq::new(stay.len(), |i: int| PlayerModel { ready: false, ..stay[i] }));
    let open = m.with_game(game_id, started);
    lemma_status_given(open, players, PLAYER_STATUS_NET_SYNC, players.len());
    assert(players.take(players.len() as int) =~= players);
    let outcome = start_game_outcome(m, src);
    let room = outcome.state.games[game_id];
    assert(room == started);
    assert forall|id: u128| listed_session(open, players, id) == listed_session(m, stay, id) by {
        if listed_session(open, players, id) {
            let i = choose|i: int|
                0 <= i < players.len() && open.by_addr.dom().contains(
                    (#[trigger] players[i]).addr,
                ) && open.by_addr[players[i].addr] == id;
            assert(stay[i].addr == players[i].addr);
        }
        if listed_session(m, stay, id) {
            let i = choose|i: int|
                0 <= i < stay.len() && m.by_addr.dom().contains((#[trigger] stay[i]).addr)
                    && m.by_addr[stay[i].addr] == id;
            assert(stay[i].addr == players[i].addr);
        }
    }
    assert(status_given(m, outcome.state, stay, 2));
    let sync = room.sync->0;
    assert(sync.inner.sync.delays =~= Seq::new(
        stay.len(),
        |i: int| stay[i].conn_type as usize,
    ));
    assert(untouched(sync, stay));
    assert(outcome.actions =~= seq![room_news(m, room)] + Seq::new(
        stay.len(),
        |i: int|
            ActionModel::Send {
                to: set![stay[i].addr],
                message_type: 17,
                data: start_game_body(
                    stay[i].conn_type as u16,
                    ((i + 1) % 256) as u8,
                    (stay.len() % 256) as u8,
                ),
            },
    ));
}

/// Starting a game that is live changes nothing, and the room hears so from whoever
/// asked.
pub proof fn law_starting_a_live_game(m: ServerModel, src: u64, game_id: u32)
    requires
        m.client(src) matches Some(client) && client.game_id == Some(game_id),
        m.game(game_id) matches Some(game) && game.sync is Some && has_addr(game.players, src),
    ensures
        start_game_outcome(m, src).state == m,
        start_game_outcome(m, src).result is Ok,
        start_game_outcome(m, src).actions == seq![
            ActionModel::Send {
                to: addrs_of(m.games[game_id].players),
                message_type: 8,
                data: chat_body(
                    (m.client(src)->0).username,
                    encode_utf8("Game is already started"@),
                ),
            },
        ],
{
    lemma_addrs_of(m.games[game_id].players);
}

/// Nothing but the owner's start starts a game: whoever else is on the list of a
/// waiting room, or is not on it, changes nothing and nobody hears of it.
pub proof fn law_others_start_nothing(m: ServerModel, src: u64, game_id: u32)
    requires
        m.client(src) matches Some(client) && client.game_id == Some(game_id) && (m.game(
            game_id,
        ) matches Some(game) && game.sync is None && (game.owner_user_id != client.user_id
            || !has_addr(game.players, src))),
    ensures
        start_game_outcome(m, src).state == m,
        start_game_outcome(m, src).actions == Seq::<ActionModel>::empty(),
        start_game_outcome(m, src).result is Ok,
{
}

/// An input of the player in `slot` is noted with its time, handed to the game, and
/// what the game releases is sent, each output to the player it was combined for. The
/// room changes in nothing else, and no other room and no client changes.
pub proof fn law_input_is_played(
    m: ServerModel,
    src: u64,
    game_id: u32,
    slot: int,
    input: InputModel,
    now: u64,
)
    requires
        m.wf(),
        m.game(game_id) matches Some(game) && (game.sync matches Some(sync) && 0 <= slot
            < sync.players() && slot < game.players.len() && sync.resolved(slot, input) is Some),
    ensures
        ({
            let game = m.games[game_id];
            let sync = game.sync->0;
            let outcome = input_outcome(m, src, game_id, slot, input, now);
            &&& outcome.result is Ok
            &&& outcome.state == (ServerModel {
                games: m.games.insert(
                    game_id,
                    GameModel {
                        players: game.players.update(
                            slot,
                            PlayerModel {
                                last_game_data_recv: Some(now),
                                ..game.players[slot]
                            },
                        ),
                        sync: Some(sync.after_input(slot, input)),
                        ..game
                    },
                ),
                ..m
            })
            &&& outcome.actions == frames_out(game.players, sync.input_responses(slot, input))
        }),
{
    law_every_output_is_delivered(m, src, game_id, slot, input, now);
    let game = m.games[game_id];
    lemma_frames_out(game.players, (game.sync->0).input_responses(slot, input));
}

/// The state once an input of the player in `slot` came, before anything is made of it:
/// only the time of that player's last input changes.
pub open spec fn heard_of(m: ServerModel, game_id: u32, slot: int, now: u64) -> ServerModel {
    let game = m.games[game_id];
    ServerModel {
        games: m.games.insert(
            game_id,
            GameModel {
                players: game.players.update(
                    slot,
                    PlayerModel { last_game_data_recv: Some(now), ..game.players[slot] },
                ),
                ..game
            },
        ),
        ..m
    }
}

/// A position that the game does not know is an error: the sender alone hears of it,
/// and but for the time of the input nothing changes.
pub proof fn law_unknown_position_is_an_error(
    m: ServerModel,
    src: u64,
    game_id: u32,
    slot: int,
    position: u8,
    now: u64,
)
    requires
        m.game(game_id) matches Some(game) && (game.sync matches Some(sync) && 0 <= slot
            < sync.players() && slot < game.players.len() && sync.input_caches.len()
            == sync.players() && position >= sync.input_caches[slot].len()),
    ensures
        ({
            let outcome = input_outcome(
                m,
                src,
                game_id,
                slot,
                InputModel::GameCache(position),
                now,
            );
            &&& outcome.result == Err::<(), ServerError>(
                ServerError::CacheMiss { player_id: slot as usize, position },
            )
            &&& outcome.state == heard_of(m, game_id, slot, now)
            &&& outcome.actions == seq![
                ActionModel::Send {
                    to: set![src],
                    message_type: 8,
                    data: chat_body(
                        encode_utf8("Server"@),
                        encode_utf8("Game Data Error! Game state will be inconsistent!"@),
                    ),
                },
            ]
        }),
{
}

/// Game data is an empty string, a length and as many bytes; it is the input of the
/// player in the sender's slot. A position is the byte behind the empty string.
pub proof fn law_inputs_come_from_the_senders_slot(
    m: ServerModel,
    src: u64,
    game_id: u32,
    slot: int,
    bytes: Seq<u8>,
    position: u8,
    tail: Seq<u8>,
    now: u64,
)
    requires
        m.wf(),
        bytes.len() < 65536,
        m.client(src) matches Some(client) && client.game_id == Some(game_id),
        m.game(game_id) matches Some(game) && 0 <= slot < game.players.len()
            && game.players[slot].addr == src,
    ensures
        game_data_outcome(m, src, game_data_body(bytes) + tail, now) == input_outcome(
            m,
            src,
            game_id,
            slot,
            InputModel::GameData(bytes),
            now,
        ),
        game_cache_outcome(m, src, game_cache_body(position) + tail, now) == input_outcome(
            m,
            src,
            game_id,
            slot,
            InputModel::GameCache(position),
            now,
        ),
{
    let game = m.games[game_id];
    assert(game.wf());
    assert(has_addr(game.players, src));
    lemma_slot_unique(game, src, slot);
    let data = game_data_body(bytes) + tail;
    let len = bytes.len() as u16;
    assert(data.skip(1) =~= crate::wire::le16(len) + (bytes + tail));
    crate::wire::law_le16_is_read_back(len, bytes + tail);
    assert(data.subrange(3, 3 + bytes.len() as int) =~= bytes);
    assert((game_cache_body(position) + tail)[1] == position);
}

/// Input from whoever is in no room, or not on the list of its room, is ignored.
pub proof fn law_strangers_play_nothing(m: ServerModel, src: u64, data: Seq<u8>, now: u64)
    requires
        m.client(src) matches Some(client) ==> (client.game_id matches Some(game_id) ==> (m.game(
            game_id,
        ) matches Some(game) ==> forall|i: int|
            0 <= i < game.players.len() ==> (#[trigger] game.players[i]).addr != src)),
    ensures
        game_data_outcome(m, src, data, now).state == m,
        game_data_outcome(m, src, data, now).actions == Seq::<ActionModel>::empty(),
        game_cache_outcome(m, src, data, now).state == m,
        game_cache_outcome(m, src, data, now).actions == Seq::<ActionModel>::empty(),
{
}

/// Everybody on the list who has not left is logged in and has signalled, counting the
/// one at `src` as having done so.
pub open spec fn everybody_signalled(
    m: ServerModel,
    players: Seq<PlayerModel>,
    src: u64,
) -> bool {
    forall|i: int|
        0 <= i < players.len() ==> {
            ||| (#[trigger] players[i]).left_room
            ||| m.client(players[i].addr) is Some && (players[i].ready || players[i].addr == src)
        }
}

/// A ready signal is noted for the one who gives it and for nobody else. Everybody
/// hears of the room. Play starts exactly when everybody who has not left is logged
/// in and has signalled: then they all play, and everybody on the list hears so; until
/// then only the sender's status changes, which waits for the others.
pub proof fn law_ready_signals_are_counted(m: ServerModel, src: u64, game_id: u32, slot: int)
    requires
        m.wf(),
        m.client(src) matches Some(client) && client.game_id == Some(game_id)
            && client.player_status != 0,
        m.game(game_id) matches Some(game) && 0 <= slot < game.players.len()
            && game.players[slot].addr == src,
    ensures
        ({
            let client = m.client(src)->0;
            let game = m.games[game_id];
            let waits = ServerModel {
                by_id: m.by_id.insert(
                    m.by_addr[src],
                    ClientModel { player_status: 2, ..client },
                ),
                ..m
            };
            let room = GameModel {
                players: game.players.update(
                    slot,
                    PlayerModel { ready: true, ..game.players[slot] },
                ),
                ..game
            };
            let stay = game.players.filter(|p: PlayerModel| !p.left_room);
            let outcome = ready_outcome(m, src);
            &&& outcome.result is Ok
            &&& outcome.state == (ServerModel {
                by_id: outcome.state.by_id,
                games: m.games.insert(game_id, room),
                ..m
            })
            &&& if everybody_signalled(m, game.players, src) {
                &&& status_given(waits, outcome.state, stay, 0)
                &&& outcome.actions == seq![
                    room_news(m, room),
                    ActionModel::Send {
                        to: addrs_of(game.players),
                        message_type: 21,
                        data: seq![0u8],
                    },
                ]
            } else {
                &&& outcome.state.by_id == waits.by_id
                &&& outcome.actions == seq![room_news(m, room)]
            }
        }),
{
    let client = m.client(src)->0;
    let game = m.games[game_id];
    assert(game.wf());
    assert(has_addr(game.players, src));
    lemma_slot_unique(game, src, slot);
    let noted = super::sync::signalled(game, src);
    let waits = m.with_client(src, ClientModel { player_status: 2, ..client });
    let state = waits.with_game(game_id, noted);
    assert(super::sync::all_ready(state, noted.players) == everybody_signalled(
        m,
        game.players,
        src,
    )) by {
        if super::sync::all_ready(state, noted.players) {
            assert forall|i: int| 0 <= i < game.players.len() implies {
                ||| (#[trigger] game.players[i]).left_room
                ||| m.client(game.players[i].addr) is Some && (game.players[i].ready
                    || game.players[i].addr == src)
            } by {
                let player = noted.players[i];
                assert(player.left_room || super::sync::is_ready(state, player));
            }
        }
        if everybody_signalled(m, game.players, src) {
            assert forall|i: int| 0 <= i < noted.players.len() implies (
            #[trigger] noted.players[i]).left_room || super::sync::is_ready(
                state,
                noted.players[i],
            ) by {
                let player = game.players[i];
                assert(player.left_room || m.client(player.addr) is Some);
                if player.addr == src {
                    lemma_slot_unique(game, src, i);
                }
            }
        }
    }
    let outcome = ready_outcome(m, src);
    lemma_addrs_of(noted.players);
    assert(addrs_of(noted.players) =~= addrs_of(game.players)) by {
        assert(noted.players.map_values(|p: PlayerModel| p.addr) =~= game.players.map_values(
            |p: PlayerModel| p.addr,
        ));
    }
    if everybody_signalled(m, game.players, src) {
        let there = present(noted.players);
        lemma_present_is_filter(noted.players);
        lemma_present_is_filter(game.players);
        lemma_same_there(game.players, slot);
        let stay = game.players.filter(|p: PlayerModel| !p.left_room);
        lemma_status_given(state, there, crate::state::PLAYER_STATUS_PLAYING, there.len());
        assert(there.take(there.len() as int) =~= there);
        assert forall|id: u128| listed_session(state, there, id) == listed_session(
            waits,
            stay,
            id,
        ) by {
            if listed_session(state, there, id) {
                let i = choose|i: int|
                    0 <= i < there.len() && state.by_addr.dom().contains(
                        (#[trigger] there[i]).addr,
                    ) && state.by_addr[there[i].addr] == id;
                assert(stay[i].addr == there[i].addr);
            }
            if listed_session(waits, stay, id) {
                let i = choose|i: int|
                    0 <= i < stay.len() && waits.by_addr.dom().contains((#[trigger] stay[i]).addr)
                        && waits.by_addr[stay[i].addr] == id;
                assert(stay[i].addr == there[i].addr);
            }
        }
        assert(status_given(waits, outcome.state, stay, 0));
    }
    assert(outcome.actions =~= if everybody_signalled(m, game.players, src) {
        seq![
            room_news(m, noted),
            ActionModel::Send {
                to: addrs_of(game.players),
                message_type: 21,
                data: seq![0u8],
            },
        ]
    } else {
        seq![room_news(m, noted)]
    });
}

/// Noting a signal moves nobody among those who have not left.
proof fn lemma_same_there(players: Seq<PlayerModel>, slot: int)
    requires
        0 <= slot < players.len(),
    ensures
        ({
            let after = present(
                players.update(slot, PlayerModel { ready: true, ..players[slot] }),
            );
            &&& after.len() == present(players).len()
            &&& forall|i: int|
                0 <= i < after.len() ==> (#[trigger] after[i]).addr == present(players)[i].addr
        }),
    decreases players.len(),
{
    let noted = players.update(slot, PlayerModel { ready: true, ..players[slot] });
    let front = players.drop_last();
    if slot < front.len() {
        lemma_same_there(front, slot);
        assert(noted.drop_last() =~= front.update(
            slot,
            PlayerModel { ready: true, ..front[slot] },
        ));
    } else {
        assert(noted.drop_last() =~= front);
    }
}

/// A ready signal of whoever plays already is ignored.
pub proof fn law_ready_signal_during_play_is_ignored(m: ServerModel, src: u64)
    requires
        m.client(src) matches Some(client) && client.player_status == 0,
    ensures
        ready_outcome(m, src).state == m,
        ready_outcome(m, src).actions == Seq::<ActionModel>::empty(),
        ready_outcome(m, src).result is Ok,
{
}

/// Who joined while the game was live has no slot in it. Leaving, such a one is marked
/// as gone on the list, and the game goes on as if nothing happened: everybody hears
/// how many stay, and the room who left.
pub proof fn law_leaving_without_a_slot(m: ServerModel, src: u64, game_id: u32, slot: int)
    requires
        m.wf(),
        m.client(src) matches Some(client) && client.game_id == Some(game_id),
        m.game(game_id) matches Some(game) && (game.sync matches Some(sync) && sync.players()
            <= slot < game.players.len() && game.players[slot].addr == src),
    ensures
        ({
            let client = m.client(src)->0;
            let game = m.games[game_id];
            let outcome = quit_game_outcome(m, src);
            let room = outcome.state.games[game_id];
            &&& outcome.result is Ok
            &&& outcome.state == (ServerModel {
                by_id: m.by_id.insert(m.by_addr[src], sent_back(client)),
                games: m.games.insert(game_id, room),
                ..m
            })
            &&& left_in_play(game, slot, room)
            &&& outcome.actions == seq![room_news(m, room), quit_news(room, client)] + (
            if host_is_gone(with_gone(game.players, slot), game) {
                seq![host_news(room)]
            } else {
                Seq::empty()
            })
        }),
{
    let client = m.client(src)->0;
    let game = m.games[game_id];
    assert(game.wf());
    lemma_left_in_play(game, src, slot);
    let left = with_present_owner(tombstoned(game, src));
    let lobby = m.with_client(src, back_in_lobby(client));
    let open = lobby.with_game(game_id, left);
    assert(left.players[slot].addr == src);
    assert(has_addr(left.players, src));
    lemma_slot_unique(left, src, slot);
    let outcome = quit_game_outcome(m, src);
    let room = outcome.state.games[game_id];
    assert(outcome.state == open);
    lemma_addrs_of(room.players);
    assert(outcome.actions =~= seq![room_news(m, room), quit_news(room, client)] + (
    if host_is_gone(with_gone(game.players, slot), game) {
        seq![host_news(room)]
    } else {
        Seq::empty()
    }));
}

/// Neither a drop nor an input of who has no slot in a live game does anything but
/// fail.
pub proof fn law_no_slot_no_play(
    m: ServerModel,
    src: u64,
    game_id: u32,
    slot: int,
    input: InputModel,
    now: u64,
)
    requires
        m.wf(),
        m.client(src) is Some,
        m.game(game_id) matches Some(game) && (game.sync matches Some(sync) && sync.players()
            <= slot < game.players.len() && game.players[slot].addr == src),
    ensures
        drop_outcome(m, game_id, src).state == m,
        drop_outcome(m, game_id, src).actions == Seq::<ActionModel>::empty(),
        drop_outcome(m, game_id, src).result is Err,
        input_outcome(m, src, game_id, slot, input, now).actions == Seq::<ActionModel>::empty(),
        input_outcome(m, src, game_id, slot, input, now).state == heard_of(m, game_id, slot, now),
        input_outcome(m, src, game_id, slot, input, now).result is Err,
{
    let game = m.games[game_id];
    assert(game.wf());
    assert(has_addr(game.players, src));
    lemma_slot_unique(game, src, slot);
}

/// Whoever says to be in a room whose game is live, without being on its list, just
/// goes back to the lobby when it leaves: nobody is taken off the list and the game
/// goes on. Everybody hears of the room, and the room of who left.
pub proof fn law_leaving_a_live_game_unlisted(m: ServerModel, src: u64, game_id: u32)
    requires
        m.client(src) matches Some(client) && client.game_id == Some(game_id),
        m.game(game_id) matches Some(game) && game.sync is Some && forall|i: int|
            0 <= i < game.players.len() ==> (#[trigger] game.players[i]).addr != src,
    ensures
        ({
            let client = m.client(src)->0;
            let game = m.games[game_id];
            let stay = game.players.filter(|p: PlayerModel| !p.left_room);
            let outcome = quit_game_outcome(m, src);
            let room = outcome.state.games[game_id];
            &&& outcome.result is Ok
            &&& outcome.state == (ServerModel {
                by_id: m.by_id.insert(m.by_addr[src], sent_back(client)),
                games: m.games.insert(game_id, room),
                ..m
            })
            &&& room == (GameModel {
                num_players: (stay.len() % 256) as u8,
                owner: room.owner,
                owner_user_id: room.owner_user_id,
                ..game
            })
            &&& rightly_owned(game.players, game, room)
            &&& outcome.actions == seq![room_news(m, room), quit_news(room, client)] + (
            if host_is_gone(game.players, game) {
                seq![host_news(room)]
            } else {
                Seq::empty()
            })
        }),
{
    let client = m.client(src)->0;
    let game = m.games[game_id];
    assert(!has_addr(game.players, src));
    let marked = tombstoned(game, src);
    assert(marked.players == game.players);
    lemma_present_is_filter(game.players);
    law_first_who_stays_takes_over(marked);
    let outcome = quit_game_outcome(m, src);
    let room = outcome.state.games[game_id];
    assert(room == with_present_owner(marked));
    lemma_addrs_of(room.players);
    assert(outcome.actions =~= seq![room_news(m, room), quit_news(room, client)] + (
    if host_is_gone(game.players, game) {
        seq![host_news(room)]
    } else {
        Seq::empty()
    }));
}

/// In a live game a kick is, for the one who is kicked, the same as leaving.
pub proof fn law_live_kick_is_leaving(m: ServerModel, src: u64, target: u64, game_id: u32)
    requires
        m.client(src) matches Some(client) && client.game_id == Some(game_id) && (m.game(
            game_id,
        ) matches Some(game) && game.sync is Some && has_addr(game.players, src)
            && game.owner_user_id == client.user_id),
        m.client(target) matches Some(kicked) && kicked.game_id == Some(game_id),
    ensures
        kick_outcome(m, src, Some(target)).state == quit_game_outcome(m, target).state,
        kick_outcome(m, src, Some(target)).actions == quit_game_outcome(m, target).actions,
        kick_outcome(m, src, Some(target)).result == quit_game_outcome(m, target).result,
{
}

/// Input where no game is live fails, and but for the time of the input nothing
/// changes.
pub proof fn law_input_without_a_game_fails(
    m: ServerModel,
    src: u64,
    game_id: u32,
    slot: int,
    input: InputModel,
    now: u64,
)
    requires
        m.game(game_id) matches Some(game) && game.sync is None && 0 <= slot < game.players.len(),
    ensures
        ({
            let outcome = input_outcome(m, src, game_id, slot, input, now);
            &&& outcome.result == Err::<(), ServerError>(ServerError::SyncNotInitialized)
            &&& outcome.actions == Seq::<ActionModel>::empty()
            &&& outcome.state == heard_of(m, game_id, slot, now)
        }),
{
}

/// A ready signal of who says to be in a room without being on its list is noted for
/// nobody; it is answered all the same, and makes the others play if they all are
/// ready.
pub proof fn law_ready_signal_from_outside(m: ServerModel, src: u64, game_id: u32)
    requires
        m.wf(),
        m.client(src) matches Some(client) && client.game_id == Some(game_id)
            && client.player_status != 0,
        m.game(game_id) matches Some(game) && forall|i: int|
            0 <= i < game.players.len() ==> (#[trigger] game.players[i]).addr != src,
    ensures
        ({
            let client = m.client(src)->0;
            let room = m.games[game_id];
            let waits = ServerModel {
                by_id: m.by_id.insert(
                    m.by_addr[src],
                    ClientModel { player_status: 2, ..client },
                ),
                ..m
            };
            let stay = room.players.filter(|p: PlayerModel| !p.left_room);
            let outcome = ready_outcome(m, src);
            &&& outcome.result is Ok
            &&& outcome.state == (ServerModel { by_id: outcome.state.by_id, ..m })
            &&& if everybody_signalled(m, room.players, src) {
                &&& status_given(waits, outcome.state, stay, 0)
                &&& outcome.actions == seq![
                    room_news(m, room),
                    ActionModel::Send {
                        to: addrs_of(room.players),
                        message_type: 21,
                        data: seq![0u8],
                    },
                ]
            } else {
                &&& outcome.state.by_id == waits.by_id
                &&& outcome.actions == seq![room_news(m, room)]
            }
        }),
{
    let client = m.client(src)->0;
    let room = m.games[game_id];
    assert(!has_addr(room.players, src));
    let waits = m.with_client(src, ClientModel { player_status: 2, ..client });
    let state = waits.with_game(game_id, room);
    assert(m.games.insert(game_id, room) =~= m.games);
    assert(super::sync::all_ready(state, room.players) == everybody_signalled(
        m,
        room.players,
        src,
    )) by {
        if super::sync::all_ready(state, room.players) {
            assert forall|i: int| 0 <= i < room.players.len() implies {
                ||| (#[trigger] room.players[i]).left_room
                ||| m.client(room.players[i].addr) is Some && (room.players[i].ready
                    || room.players[i].addr == src)
            } by {
                assert(room.players[i].left_room || super::sync::is_ready(
                    state,
                    room.players[i],
                ));
            }
        }
        if everybody_signalled(m, room.players, src) {
            assert forall|i: int| 0 <= i < room.players.len() implies (
            #[trigger] room.players[i]).left_room || super::sync::is_ready(
                state,
                room.players[i],
            ) by {
                assert(room.players[i].addr != src);
            }
        }
    }
    let outcome = ready_outcome(m, src);
    lemma_addrs_of(room.players);
    if everybody_signalled(m, room.players, src) {
        let there = present(room.players);
        lemma_present_is_filter(room.players);
        lemma_status_given(state, there, crate::state::PLAYER_STATUS_PLAYING, there.len());
        assert(there.take(there.len() as int) =~= there);
        assert forall|id: u128| listed_session(state, there, id) == listed_session(
            waits,
            there,
            id,
        ) by {}
        assert(status_given(waits, outcome.state, there, 0));
    }
    assert(outcome.actions =~= if everybody_signalled(m, room.players, src) {
        seq![
            room_news(m, room),
            ActionModel::Send {
                to: addrs_of(room.players),
                message_type: 21,
                data: seq![0u8],
            },
        ]
    } else {
        seq![room_news(m, room)]
    });
}

} // verus!
