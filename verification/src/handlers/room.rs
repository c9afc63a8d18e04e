//! Rules of a room that several requests share.

use vstd::prelude::*;
use crate::bytes_util::{copy_bytes, copy_range};
#[allow(unused_imports)]
use crate::simplest_game_sync::cached::{lemma_after_drop_keeps, CachedModel};
#[allow(unused_imports)]
use crate::simplest_game_sync::delay_laws::lemma_input_keeps_wf;
#[allow(unused_imports)]
use crate::simplest_game_sync::delayed::DelayedModel;
#[allow(unused_imports)]
use crate::simplest_game_sync::types::InputModel;
use crate::state::{AppState, GameInfo, GamePlayerInfo};
#[allow(unused_imports)]
use crate::state::{
    all_lan, distinct_addrs, has_addr, lan_slot, lan_sync, players_view, ClientModel, GameModel,
    PlayerModel, ServerModel,
};

verus! {

/// At most the first `n` bytes.
pub open spec fn truncated(bytes: Seq<u8>, n: int) -> Seq<u8> {
    if bytes.len() > n {
        bytes.take(n)
    } else {
        bytes
    }
}

/// Cuts bytes to at most `n`. Names are cut by bytes, not characters, to leave
/// their encoding alone.
pub fn truncate_bytes(bytes: Vec<u8>, n: usize) -> (cut: Vec<u8>)
    ensures
        cut@ == truncated(bytes@, n as int),
{
    if bytes.len() > n {
        let cut: Vec<u8> = copy_range(bytes.as_slice(), 0, n);
        assert(cut@ =~= bytes@.take(n as int));
        cut
    } else {
        bytes
    }
}

/// The low byte of a count.
pub open spec fn low_byte(n: nat) -> u8 {
    (n % 256) as u8
}

/// The players who are still in the room, in slot order.
pub open spec fn present(players: Seq<PlayerModel>) -> Seq<PlayerModel>
    decreases players.len(),
{
    if players.len() == 0 {
        Seq::empty()
    } else if players.last().left_room {
        present(players.drop_last())
    } else {
        present(players.drop_last()).push(players.last())
    }
}

/// The first player who is still in the room.
pub open spec fn first_present(players: Seq<PlayerModel>) -> Option<PlayerModel> {
    if present(players).len() > 0 {
        Some(present(players)[0])
    } else {
        None
    }
}

/// The owner is still in the room.
pub open spec fn owner_present(game: GameModel) -> bool {
    exists|i: int|
        0 <= i < present(game.players).len() && (#[trigger] present(game.players)[i]).user_id
            == game.owner_user_id
}

/// The room once ownership went to somebody who is still there.
pub open spec fn with_present_owner(game: GameModel) -> GameModel {
    match new_owner(game) {
        Some(player) => GameModel {
            owner: player.username,
            owner_user_id: player.user_id,
            ..game
        },
        None => game,
    }
}

/// Who takes over, where the owner is gone and somebody is left.
pub open spec fn new_owner(game: GameModel) -> Option<PlayerModel> {
    if owner_present(game) {
        None
    } else {
        first_present(game.players)
    }
}

/// Somebody at `addr` is on a list and not marked as gone.
pub open spec fn is_present(players: Seq<PlayerModel>, addr: u64) -> bool {
    exists|i: int|
        0 <= i < players.len() && (#[trigger] players[i]).addr == addr && !players[i].left_room
}

/// Everybody who is present is listed, and is marked as present.
pub proof fn lemma_present(players: Seq<PlayerModel>)
    ensures
        present(players).len() <= players.len(),
        forall|i: int|
            0 <= i < present(players).len() ==> players.contains(#[trigger] present(players)[i]),
        forall|i: int|
            0 <= i < present(players).len() ==> !(#[trigger] present(players)[i]).left_room,
        forall|j: int|
            0 <= j < players.len() && !(#[trigger] players[j]).left_room ==> present(
                players,
            ).contains(players[j]),
    decreases players.len(),
{
    if players.len() > 0 {
        let front = players.drop_last();
        let last = players[players.len() - 1];
        lemma_present(front);
        assert forall|i: int| 0 <= i < present(players).len() implies players.contains(
            #[trigger] present(players)[i],
        ) by {
            if i < present(front).len() {
                assert(front.contains(present(front)[i]));
                let j = choose|j: int| 0 <= j < front.len() && front[j] == present(front)[i];
                assert(players[j] == present(players)[i]);
            } else {
                assert(players[players.len() - 1] == present(players)[i]);
            }
        }
        assert forall|i: int| 0 <= i < present(players).len() implies !(
        #[trigger] present(players)[i]).left_room by {
            if i < present(front).len() {
                assert(!present(front)[i].left_room);
            }
        }
        assert forall|j: int| 0 <= j < players.len() && !(#[trigger] players[j]).left_room implies
            present(players).contains(players[j]) by {
            if j < front.len() {
                assert(front[j] == players[j]);
                assert(present(front).contains(front[j]));
                let i = choose|i: int| 0 <= i < present(front).len() && present(front)[i]
                    == front[j];
                assert(present(players)[i] == players[j]);
            } else {
                assert(present(players)[present(front).len() as int] == players[j]);
            }
        }
    }
}

/// Keeping only the players who are present keeps them distinct and of the LAN
/// type.
pub proof fn lemma_present_keeps(players: Seq<PlayerModel>)
    requires
        distinct_addrs(players),
        all_lan(players),
    ensures
        distinct_addrs(present(players)),
        all_lan(present(players)),
    decreases players.len(),
{
    if players.len() > 0 {
        let front = players.drop_last();
        let last = players[players.len() - 1];
        assert forall|i: int, j: int| 0 <= i < j < front.len() implies (#[trigger] front[i]).addr
            != (#[trigger] front[j]).addr by {
            assert(players[i].addr != players[j].addr);
        }
        assert forall|i: int| 0 <= i < front.len() implies (#[trigger] front[i]).conn_type
            == crate::state::CONN_TYPE_LAN by {
            assert(players[i].conn_type == crate::state::CONN_TYPE_LAN);
        }
        lemma_present_keeps(front);
        lemma_present(front);
        let all = present(players);
        assert forall|i: int, j: int| 0 <= i < j < all.len() implies (#[trigger] all[i]).addr
            != (#[trigger] all[j]).addr by {
            if j < present(front).len() {
                assert(present(front)[i].addr != present(front)[j].addr);
            } else {
                assert(front.contains(present(front)[i]));
                let k = choose|k: int| 0 <= k < front.len() && front[k] == present(front)[i];
                assert(players[k].addr != players[players.len() - 1].addr);
            }
        }
        assert forall|i: int| 0 <= i < all.len() implies (#[trigger] all[i]).conn_type
            == crate::state::CONN_TYPE_LAN by {
            if i < present(front).len() {
                assert(present(front)[i].conn_type == crate::state::CONN_TYPE_LAN);
            } else {
                assert(last.conn_type == crate::state::CONN_TYPE_LAN);
            }
        }
    }
}

/// Removing a player keeps the others distinct and of the LAN type.
pub proof fn lemma_remove_keeps(players: Seq<PlayerModel>, slot: int)
    requires
        distinct_addrs(players),
        all_lan(players),
        0 <= slot < players.len(),
    ensures
        distinct_addrs(players.remove(slot)),
        all_lan(players.remove(slot)),
{
    let rest = players.remove(slot);
    assert forall|i: int, j: int| 0 <= i < j < rest.len() implies (#[trigger] rest[i]).addr != (
    #[trigger] rest[j]).addr by {
        let a = if i < slot { i } else { i + 1 };
        let b = if j < slot { j } else { j + 1 };
        assert(players[a].addr != players[b].addr);
    }
    assert forall|i: int| 0 <= i < rest.len() implies (#[trigger] rest[i]).conn_type
        == crate::state::CONN_TYPE_LAN by {
        let a = if i < slot { i } else { i + 1 };
        assert(players[a].conn_type == crate::state::CONN_TYPE_LAN);
    }
}

/// Changing a player at its slot keeps the players distinct and of the LAN type,
/// if the change leaves the address and the type alone.
pub proof fn lemma_update_keeps(players: Seq<PlayerModel>, slot: int, player: PlayerModel)
    requires
        distinct_addrs(players),
        all_lan(players),
        0 <= slot < players.len(),
        player.addr == players[slot].addr,
        player.conn_type == players[slot].conn_type,
    ensures
        distinct_addrs(players.update(slot, player)),
        all_lan(players.update(slot, player)),
{
    let after = players.update(slot, player);
    assert forall|i: int, j: int| 0 <= i < j < after.len() implies (#[trigger] after[i]).addr != (
    #[trigger] after[j]).addr by {
        assert(players[i].addr != players[j].addr);
    }
    assert forall|i: int| 0 <= i < after.len() implies (#[trigger] after[i]).conn_type
        == crate::state::CONN_TYPE_LAN by {
        assert(players[i].conn_type == crate::state::CONN_TYPE_LAN);
    }
}

/// Adding a player with a new address keeps the players distinct.
pub proof fn lemma_push_keeps(players: Seq<PlayerModel>, player: PlayerModel)
    requires
        distinct_addrs(players),
        all_lan(players),
        !has_addr(players, player.addr),
        player.conn_type == crate::state::CONN_TYPE_LAN,
    ensures
        distinct_addrs(players.push(player)),
        all_lan(players.push(player)),
{
    let after = players.push(player);
    assert forall|i: int, j: int| 0 <= i < j < after.len() implies (#[trigger] after[i]).addr != (
    #[trigger] after[j]).addr by {
        assert(players[i].addr != player.addr);
        if j < players.len() {
            assert(players[i].addr != players[j].addr);
        }
    }
    assert forall|i: int| 0 <= i < after.len() implies (#[trigger] after[i]).conn_type
        == crate::state::CONN_TYPE_LAN by {
        if i < players.len() {
            assert(players[i].conn_type == crate::state::CONN_TYPE_LAN);
        }
    }
}

/// The players who are still in the room.
pub fn present_players(players: &[GamePlayerInfo]) -> (kept: Vec<GamePlayerInfo>)
    ensures
        players_view(kept@) == present(players_view(players@)),
{
    let ghost all = players_view(players@);
    let mut kept: Vec<GamePlayerInfo> = Vec::new();
    let mut i: usize = 0;
    assert(all.take(0) =~= Seq::empty());
    assert(players_view(kept@) =~= Seq::empty());
    while i < players.len()
        invariant
            i <= players@.len(),
            all == players_view(players@),
            players_view(kept@) == present(all.take(i as int)),
        decreases players.len() - i,
    {
        assert(all.take(i + 1).drop_last() =~= all.take(i as int));
        assert(all.take(i + 1).last() == players@[i as int]@);
        if !players[i].left_room {
            let ghost listed = kept@;
            let player: GamePlayerInfo = players[i].duplicate();
            kept.push(player);
            assert(players_view(kept@) =~= players_view(listed).push(player@));
        }
        i += 1;
    }
    assert(all.take(i as int) =~= all);
    kept
}

/// These players, none of whom has signalled that it is ready.
pub open spec fn not_ready(players: Seq<PlayerModel>) -> Seq<PlayerModel> {
    players.map_values(|p: PlayerModel| PlayerModel { ready: false, ..p })
}

/// Forgetting who is ready keeps players distinct and of the LAN type.
pub proof fn lemma_not_ready_keeps(players: Seq<PlayerModel>)
    requires
        distinct_addrs(players),
        all_lan(players),
    ensures
        distinct_addrs(not_ready(players)),
        all_lan(not_ready(players)),
{
    let after = not_ready(players);
    assert forall|i: int, j: int| 0 <= i < j < after.len() implies (#[trigger] after[i]).addr != (
    #[trigger] after[j]).addr by {
        assert(players[i].addr != players[j].addr);
    }
    assert forall|i: int| 0 <= i < after.len() implies (#[trigger] after[i]).conn_type
        == crate::state::CONN_TYPE_LAN by {
        assert(players[i].conn_type == crate::state::CONN_TYPE_LAN);
    }
}

/// Copies of players, none of whom has signalled that it is ready.
pub fn unready_players(players: &[GamePlayerInfo]) -> (copies: Vec<GamePlayerInfo>)
    ensures
        players_view(copies@) == not_ready(players_view(players@)),
{
    let mut copies: Vec<GamePlayerInfo> = Vec::new();
    let mut i: usize = 0;
    while i < players.len()
        invariant
            i <= players@.len(),
            copies@.len() == i,
            forall|j: int|
                0 <= j < i ==> (#[trigger] copies@[j])@ == (PlayerModel {
                    ready: false,
                    ..players@[j]@
                }),
        decreases players.len() - i,
    {
        let mut copy: GamePlayerInfo = players[i].duplicate();
        copy.ready = false;
        copies.push(copy);
        i += 1;
    }
    assert(players_view(copies@) =~= not_ready(players_view(players@)));
    copies
}

/// Copies of players.
pub fn duplicate_players(players: &[GamePlayerInfo]) -> (copies: Vec<GamePlayerInfo>)
    ensures
        players_view(copies@) == players_view(players@),
{
    let mut copies: Vec<GamePlayerInfo> = Vec::new();
    let mut i: usize = 0;
    while i < players.len()
        invariant
            i <= players@.len(),
            copies@.len() == i,
            forall|j: int| 0 <= j < i ==> (#[trigger] copies@[j])@ == players@[j]@,
        decreases players.len() - i,
    {
        copies.push(players[i].duplicate());
        i += 1;
    }
    assert(players_view(copies@) =~= players_view(players@));
    copies
}

/// Hands ownership to the first player who is still in the room, if the owner is
/// not. Returns the new owner's username.
pub fn migrate_owner_if_needed(game: &mut GameInfo) -> (name: Option<Vec<u8>>)
    ensures
        final(game)@ == with_present_owner(old(game)@),
        match name {
            Some(bytes) => new_owner(old(game)@) matches Some(player) && player.username == bytes@,
            None => new_owner(old(game)@) is None,
        },
{
    let kept: Vec<GamePlayerInfo> = present_players(game.players.as_slice());
    let ghost there = present(game@.players);
    let mut i: usize = 0;
    while i < kept.len()
        invariant
            i <= kept@.len(),
            players_view(kept@) == there,
            there == present(game@.players),
            game@ == old(game)@,
            forall|j: int| 0 <= j < i ==> (#[trigger] there[j]).user_id != game.owner_user_id,
        decreases kept.len() - i,
    {
        assert(there[i as int] == kept@[i as int]@);
        if kept[i].user_id == game.owner_user_id {
            assert(there[i as int].user_id == game@.owner_user_id);
            return None;
        }
        i += 1;
    }
    assert(!owner_present(game@));
    if kept.len() == 0 {
        return None;
    }
    assert(there[0] == kept@[0]@);
    game.owner = copy_bytes(kept[0].username.as_slice());
    game.owner_user_id = kept[0].user_id;
    Some(copy_bytes(kept[0].username.as_slice()))
}

/// The state once the clients of the first `n` players have this status. Who is not
/// logged in is skipped.
pub open spec fn mark_players(
    m: ServerModel,
    players: Seq<PlayerModel>,
    status: u8,
    n: nat,
) -> ServerModel
    decreases n,
{
    if n == 0 {
        m
    } else {
        let state = mark_players(m, players, status, (n - 1) as nat);
        let addr = players[n - 1].addr;
        match state.client(addr) {
            Some(client) => state.with_client(
                addr,
                ClientModel { player_status: status, ..client },
            ),
            None => state,
        }
    }
}

/// Marking players changes nothing but the status of their clients.
pub proof fn lemma_mark_keeps(m: ServerModel, players: Seq<PlayerModel>, status: u8, n: nat)
    requires
        m.wf(),
    ensures
        mark_players(m, players, status, n).wf(),
        mark_players(m, players, status, n).games == m.games,
        mark_players(m, players, status, n).by_addr == m.by_addr,
        mark_players(m, players, status, n).by_id.dom() == m.by_id.dom(),
        mark_players(m, players, status, n).next_game_id == m.next_game_id,
        mark_players(m, players, status, n).next_user_id == m.next_user_id,
        mark_players(m, players, status, n).config == m.config,
        forall|id: u128|
            m.by_id.dom().contains(id) ==> ({
                let before = m.by_id[id];
                let after = #[trigger] mark_players(m, players, status, n).by_id[id];
                &&& after == ClientModel { player_status: after.player_status, ..before }
                &&& after.player_status == before.player_status || after.player_status == status
            }),
    decreases n,
{
    if n > 0 {
        lemma_mark_keeps(m, players, status, (n - 1) as nat);
        let before = mark_players(m, players, status, (n - 1) as nat);
        let after = mark_players(m, players, status, n);
        assert(after.by_id.dom() =~= m.by_id.dom());
    }
}

/// Every player who is logged in gets the status.
pub proof fn lemma_mark_reaches(m: ServerModel, players: Seq<PlayerModel>, status: u8, n: nat)
    requires
        m.wf(),
        n <= players.len(),
    ensures
        forall|i: int|
            0 <= i < n && m.client((#[trigger] players[i]).addr) is Some ==> (mark_players(
                m,
                players,
                status,
                n,
            ).client(players[i].addr) matches Some(client) && client.player_status == status),
    decreases n,
{
    if n > 0 {
        lemma_mark_reaches(m, players, status, (n - 1) as nat);
        lemma_mark_keeps(m, players, status, (n - 1) as nat);
    }
}

/// Gives the clients of these players a status. Who is not logged in is skipped.
pub fn set_status_of_players(state: &mut AppState, players: &[GamePlayerInfo], status: u8)
    ensures
        final(state)@ == mark_players(
            old(state)@,
            players_view(players@),
            status,
            players@.len(),
        ),
{
    let ghost m = state@;
    let ghost all = players_view(players@);
    let mut i: usize = 0;
    while i < players.len()
        invariant
            i <= players@.len(),
            all == players_view(players@),
            m == old(state)@,
            mark_players(m, all, status, i as nat) == state@,
        decreases players.len() - i,
    {
        let addr: u64 = players[i].addr;
        assert(all[i as int].addr == addr);
        if let Some(client) = state.get_client(addr) {
            let mut client = client;
            client.player_status = status;
            let _ = state.update_client(addr, client);
        }
        i += 1;
    }
}

/// A game on LAN terms can process any input, and stays on LAN terms.
pub proof fn lemma_lan_input(sync: DelayedModel, p: int, input: InputModel)
    requires
        lan_sync(sync),
        0 <= p < sync.players(),
    ensures
        sync.can_process(p, input),
        sync.resolved(p, input) is Some ==> lan_sync(sync.after_input(p, input)),
        sync.resolved(p, input) is Some ==> sync.after_input(p, input).players() == sync.players(),
{
    assert(lan_slot(sync, p));
    if sync.resolved(p, input) is Some {
        let bytes = sync.resolved(p, input)->0;
        let fed = sync.inner.sync.with_input(p, sync.released(p, bytes));
        assert forall|q: int| 0 <= q < fed.players() implies #[trigger] fed.delays[q] > 0 by {
            assert(lan_slot(sync, q));
        }
        lemma_input_keeps_wf(sync, p, input);
        let after = sync.after_input(p, input);
        assert forall|q: int| 0 <= q < after.players() implies #[trigger] lan_slot(after, q) by {
            assert(lan_slot(sync, q));
        }
    }
}

/// A player can be dropped from a game on LAN terms, which stays on LAN terms.
pub proof fn lemma_lan_drop(sync: DelayedModel, p: int)
    requires
        lan_sync(sync),
        0 <= p < sync.players(),
    ensures
        sync.inner.sync.with_dropped(p).can_drain(),
        lan_sync(sync.after_drop(p)),
        sync.after_drop(p).players() == sync.players(),
{
    let marked = sync.inner.sync.with_dropped(p);
    assert forall|q: int| 0 <= q < marked.players() implies #[trigger] marked.delays[q] > 0 by {
        assert(lan_slot(sync, q));
    }
    lemma_after_drop_keeps(sync.inner, p);
    let after = sync.after_drop(p);
    assert forall|q: int| 0 <= q < after.players() implies #[trigger] lan_slot(after, q) by {
        assert(lan_slot(sync, q));
    }
}

/// A game that starts with LAN players is on LAN terms.
pub proof fn lemma_lan_start(inner: CachedModel, total_delays: Seq<usize>)
    requires
        inner.wf(),
        total_delays.len() == inner.players(),
        forall|p: int| 0 <= p < inner.players() ==> #[trigger] inner.sync.delays[p] == 1,
        forall|p: int| 0 <= p < inner.players() ==> #[trigger] total_delays[p] == 0,
    ensures
        lan_sync(DelayedModel::initial(inner, total_delays)),
{
    let sync = DelayedModel::initial(inner, total_delays);
    assert forall|q: int| 0 <= q < sync.players() implies #[trigger] lan_slot(sync, q) by {
        assert(inner.sync.delays[q] == 1);
        assert(total_delays[q] == 0);
    }
}

} // verus!
