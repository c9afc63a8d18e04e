//! When a game is played: not before everybody who is present said that it is
//! ready.

use vstd::prelude::*;
#[allow(unused_imports)]
use crate::kaillera::message_types::{READY_TO_PLAY, UPDATE_GAME_STATUS};
#[allow(unused_imports)]
use crate::packet_util::empty_string;
#[allow(unused_imports)]
use crate::state::{
    has_addr, lemma_slot_unique, ClientModel, PlayerModel, ServerModel, PLAYER_STATUS_NET_SYNC,
    PLAYER_STATUS_PLAYING,
};
#[allow(unused_imports)]
use super::game::{start_game_outcome, started_game};
#[allow(unused_imports)]
use super::laws::{lemma_signalled_wf, lemma_slot_of, lemma_started_wf};
#[allow(unused_imports)]
use super::room::{
    lemma_mark_keeps, lemma_mark_reaches, lemma_not_ready_keeps, lemma_present, lemma_present_keeps,
    present,
};
#[allow(unused_imports)]
use super::sync::{is_ready, ready_outcome, signalled};
#[allow(unused_imports)]
use super::util::{status_of, to_all, to_room};

verus! {

/// The client at `src` is in this room and does not play yet.
pub open spec fn may_signal(m: ServerModel, src: u64, game_id: u32) -> bool {
    &&& m.client(src) matches Some(client) && client.game_id == Some(game_id)
        && client.player_status != PLAYER_STATUS_PLAYING
    &&& m.game(game_id) is Some
}

/// Play waits for everybody. While somebody else who is present has not signalled,
/// a ready signal is only noted: all are told of the room, and nobody's status
/// becomes playing.
pub proof fn law_play_waits_for_everybody(m: ServerModel, src: u64, game_id: u32, other: int)
    requires
        may_signal(m, src, game_id),
        0 <= other < m.games[game_id].players.len(),
        m.games[game_id].players[other].addr != src,
        !m.games[game_id].players[other].left_room,
        !m.games[game_id].players[other].ready,
    ensures
        ({
            let outcome = ready_outcome(m, src);
            let room = signalled(m.games[game_id], src);
            &&& outcome.result is Ok
            &&& outcome.actions == seq![
                to_all(outcome.state, UPDATE_GAME_STATUS, status_of(room)),
            ]
            &&& outcome.state.game(game_id) == Some(room)
            &&& outcome.state.by_addr == m.by_addr
            &&& forall|addr: u64| #[trigger]
                outcome.state.client(addr) == m.client(addr) || (outcome.state.client(
                    addr,
                ) matches Some(client) && client.player_status == PLAYER_STATUS_NET_SYNC)
        }),
{
    let game = m.games[game_id];
    let noted = signalled(game, src);
    if game.slot_of(src) is Some {
        lemma_slot_of(game, src);
    }
    assert(!noted.players[other].left_room && !noted.players[other].ready);
}

/// The last signal starts the play. Once everybody else who is present has
/// signalled, a ready signal makes everybody who is present play, and the room is
/// told so.
pub proof fn law_last_signal_starts_the_play(m: ServerModel, src: u64, game_id: u32)
    requires
        m.wf(),
        may_signal(m, src, game_id),
        forall|i: int|
            0 <= i < m.games[game_id].players.len() ==> (
            #[trigger] m.games[game_id].players[i]).left_room
                || m.games[game_id].players[i].addr == src || is_ready(
                m,
                m.games[game_id].players[i],
            ),
    ensures
        ({
            let outcome = ready_outcome(m, src);
            let room = signalled(m.games[game_id], src);
            &&& outcome.result is Ok
            &&& outcome.actions == seq![
                to_all(outcome.state, UPDATE_GAME_STATUS, status_of(room)),
                to_room(room, READY_TO_PLAY, empty_string()),
            ]
            &&& forall|i: int|
                0 <= i < room.players.len() && !(#[trigger] room.players[i]).left_room ==> (
                outcome.state.client(room.players[i].addr) matches Some(client)
                    && client.player_status == PLAYER_STATUS_PLAYING)
        }),
{
    let client = m.client(src)->0;
    let game = m.games[game_id];
    let noted = signalled(game, src);
    let waits = m.with_client(
        src,
        ClientModel { player_status: PLAYER_STATUS_NET_SYNC, ..client },
    );
    let state = waits.with_game(game_id, noted);
    lemma_signalled_wf(game, src);
    assert(state.wf());
    assert forall|i: int| 0 <= i < noted.players.len() implies (
    #[trigger] noted.players[i]).left_room || is_ready(state, noted.players[i]) by {
        assert(noted.players[i].addr == game.players[i].addr);
        if game.players[i].addr == src {
            lemma_slot_unique(game, src, i);
        } else {
            if game.slot_of(src) is Some {
                lemma_slot_of(game, src);
            }
            assert(noted.players[i] == game.players[i]);
            assert(game.players[i].left_room || is_ready(m, game.players[i]));
        }
    }
    let kept = present(noted.players);
    lemma_present(noted.players);
    assert forall|i: int| 0 <= i < kept.len() implies state.client((#[trigger] kept[i]).addr) is Some
        by {
        assert(noted.players.contains(kept[i]));
        let j = choose|j: int| 0 <= j < noted.players.len() && noted.players[j] == kept[i];
        assert(noted.players[j].left_room || is_ready(state, noted.players[j]));
    }
    lemma_mark_reaches(state, kept, PLAYER_STATUS_PLAYING, kept.len());
    lemma_mark_keeps(state, kept, PLAYER_STATUS_PLAYING, kept.len());
    let outcome = ready_outcome(m, src);
    assert forall|i: int| 0 <= i < noted.players.len() && !(
    #[trigger] noted.players[i]).left_room implies (outcome.state.client(
        noted.players[i].addr,
    ) matches Some(client) && client.player_status == PLAYER_STATUS_PLAYING) by {
        assert(kept.contains(noted.players[i]));
        let j = choose|j: int| 0 <= j < kept.len() && kept[j] == noted.players[i];
        assert(kept[j].addr == noted.players[i].addr);
    }
    assert(to_all(outcome.state, UPDATE_GAME_STATUS, status_of(noted)) == to_all(
        state,
        UPDATE_GAME_STATUS,
        status_of(noted),
    ));
    assert(outcome.actions =~= seq![
        to_all(outcome.state, UPDATE_GAME_STATUS, status_of(noted)),
        to_room(noted, READY_TO_PLAY, empty_string()),
    ]);
}

/// Two players get ready. When the owner starts a game of two, the first ready
/// signal, whoever gives it, leads to a notice of the room alone, and nobody of
/// the two plays; the second tells the room that the play starts, and both play.
pub proof fn law_two_players_get_ready(m: ServerModel, owner: u64, game_id: u32, first: int)
    requires
        m.wf(),
        m.client(owner) matches Some(client) && client.game_id == Some(game_id) && (m.game(
            game_id,
        ) matches Some(game) && game.sync is None && has_addr(game.players, owner)
            && game.owner_user_id == client.user_id),
        present(m.games[game_id].players).len() == 2,
        first == 0 || first == 1,
        forall|i: int|
            0 <= i < 2 ==> (m.client(
                (#[trigger] present(m.games[game_id].players)[i]).addr,
            ) matches Some(client) && client.game_id == Some(game_id)),
    ensures
        ({
            let players = present(m.games[game_id].players);
            let a = players[first].addr;
            let b = players[1 - first].addr;
            let started = start_game_outcome(m, owner).state;
            let one = ready_outcome(started, a);
            let two = ready_outcome(one.state, b);
            &&& one.actions == seq![
                to_all(one.state, UPDATE_GAME_STATUS, status_of(one.state.games[game_id])),
            ]
            &&& one.state.client(a) matches Some(client) && client.player_status
                == PLAYER_STATUS_NET_SYNC
            &&& one.state.client(b) matches Some(client) && client.player_status
                == PLAYER_STATUS_NET_SYNC
            &&& two.actions == seq![
                to_all(two.state, UPDATE_GAME_STATUS, status_of(two.state.games[game_id])),
                to_room(two.state.games[game_id], READY_TO_PLAY, empty_string()),
            ]
            &&& two.state.client(a) matches Some(client) && client.player_status
                == PLAYER_STATUS_PLAYING
            &&& two.state.client(b) matches Some(client) && client.player_status
                == PLAYER_STATUS_PLAYING
        }),
{
    let game = m.games[game_id];
    let players = present(game.players);
    let a = players[first].addr;
    let b = players[1 - first].addr;
    lemma_present(game.players);
    lemma_present_keeps(game.players);
    lemma_not_ready_keeps(players);
    lemma_started_wf(m, game_id);
    let room = started_game(game, m.config.disable_output_cache);
    let open = m.with_game(game_id, room);
    assert forall|i: int| 0 <= i < room.players.len() implies open.client(
        (#[trigger] room.players[i]).addr,
    ) is Some by {
        assert(m.client(players[i].addr) is Some);
    }
    lemma_mark_reaches(open, room.players, PLAYER_STATUS_NET_SYNC, room.players.len());
    lemma_mark_keeps(open, room.players, PLAYER_STATUS_NET_SYNC, room.players.len());
    let started = start_game_outcome(m, owner).state;
    assert(started.games[game_id] == room);
    assert(room.players[first].addr == a && room.players[1 - first].addr == b);
    assert(a != b);
    assert forall|i: int| 0 <= i < 2 implies (started.client(
        (#[trigger] room.players[i]).addr,
    ) matches Some(client) && client.game_id == Some(game_id) && client.player_status
        == PLAYER_STATUS_NET_SYNC) by {
        assert(m.client(players[i].addr) is Some);
        let id = m.by_addr[players[i].addr];
        assert(open.by_id.dom().contains(id));
        assert(started.by_id[id].game_id == open.by_id[id].game_id);
    }
    law_play_waits_for_everybody(started, a, game_id, 1 - first);
    let one = ready_outcome(started, a);
    let noted = signalled(room, a);
    lemma_slot_unique(room, a, first);
    lemma_signalled_wf(room, a);
    assert(noted.players =~= room.players.update(
        first,
        PlayerModel { ready: true, ..room.players[first] },
    ));
    let waits = started.with_client(
        a,
        ClientModel { player_status: PLAYER_STATUS_NET_SYNC, ..started.client(a)->0 },
    );
    assert(one.state == waits.with_game(game_id, noted));
    assert(one.state.wf());
    law_last_signal_starts_the_play(one.state, b, game_id);
    let two = ready_outcome(one.state, b);
    let both = signalled(noted, b);
    lemma_slot_unique(noted, b, 1 - first);
    assert(both.players[first].addr == a && both.players[1 - first].addr == b);
    let state = one.state.with_client(
        b,
        ClientModel { player_status: PLAYER_STATUS_NET_SYNC, ..one.state.client(b)->0 },
    ).with_game(game_id, both);
    lemma_signalled_wf(noted, b);
    assert(state.wf());
    let kept = present(both.players);
    lemma_mark_keeps(state, kept, PLAYER_STATUS_PLAYING, kept.len());
    assert(two.state.games[game_id] == both);
}

} // verus!
