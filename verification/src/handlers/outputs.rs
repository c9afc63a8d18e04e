//! From the outputs of a live game to messages.

use vstd::prelude::*;
use crate::kaillera::message_types::{GAME_CACHE, GAME_DATA};
use crate::packet_util::{build_game_cache_packet, build_game_data_packet};
#[allow(unused_imports)]
use crate::packet_util::{game_cache_body, game_data_body};
use crate::simplest_game_sync::{CachedPlayerOutput, ServerResponse};
#[allow(unused_imports)]
use crate::simplest_game_sync::types::{cached_outputs_view, CachedOutputModel, ResponseModel};
use crate::state::{GamePlayerInfo, ServerError};
#[allow(unused_imports)]
use crate::state::{players_view, PlayerModel};
use super::util::{send_packet, Action};
#[allow(unused_imports)]
use super::util::{actions_view, actions_wf, to_one, ActionModel};

verus! {

/// The message that carries a response.
pub open spec fn response_action(addr: u64, response: ResponseModel) -> ActionModel {
    match response {
        ResponseModel::GameData(data) => to_one(addr, GAME_DATA, game_data_body(data)),
        ResponseModel::GameCache(position) => to_one(addr, GAME_CACHE, game_cache_body(position)),
    }
}

/// The messages that carry these outputs to the players of a room.
pub open spec fn output_actions(
    players: Seq<PlayerModel>,
    outputs: Seq<CachedOutputModel>,
) -> Seq<ActionModel> {
    outputs.map_values(
        |o: CachedOutputModel| response_action(players[o.player_id as int].addr, o.response),
    )
}

/// Number of leading outputs whose slot has a player in the room.
pub open spec fn deliverable(players: nat, outputs: Seq<CachedOutputModel>) -> nat
    decreases outputs.len(),
{
    if outputs.len() == 0 || outputs[0].player_id >= players {
        0
    } else {
        1 + deliverable(players, outputs.skip(1))
    }
}

/// What is wrong with the first output that cannot be delivered.
pub open spec fn delivery_result(players: nat, outputs: Seq<CachedOutputModel>) -> Result<
    (),
    ServerError,
> {
    let n = deliverable(players, outputs);
    if n == outputs.len() {
        Ok(())
    } else {
        Err(
            ServerError::InvalidPlayerId {
                player_id: outputs[n as int].player_id,
                player_count: players as usize,
            },
        )
    }
}

/// The leading outputs that can be delivered are the ones before the first that
/// cannot.
pub proof fn lemma_deliverable(players: nat, outputs: Seq<CachedOutputModel>, n: int)
    requires
        0 <= n <= outputs.len(),
        forall|i: int| 0 <= i < n ==> (#[trigger] outputs[i]).player_id < players,
        n < outputs.len() ==> outputs[n].player_id >= players,
    ensures
        deliverable(players, outputs) == n,
    decreases n,
{
    if n > 0 {
        assert(outputs[0].player_id < players);
        let rest = outputs.skip(1);
        assert forall|i: int| 0 <= i < n - 1 implies (#[trigger] rest[i]).player_id < players by {
            assert(outputs[i + 1].player_id < players);
        }
        lemma_deliverable(players, rest, n - 1);
    }
}

/// Number of leading outputs whose slot has a player in the room.
fn count_deliverable(players: usize, outputs: &[CachedPlayerOutput]) -> (n: usize)
    ensures
        n == deliverable(players as nat, cached_outputs_view(outputs@)),
        n <= outputs@.len(),
        forall|i: int| 0 <= i < n ==> (#[trigger] outputs@[i]).player_id < players,
{
    let ghost all = cached_outputs_view(outputs@);
    let mut i: usize = 0;
    while i < outputs.len() && outputs[i].player_id < players
        invariant
            i <= outputs@.len(),
            forall|j: int| 0 <= j < i ==> (#[trigger] outputs@[j]).player_id < players,
        decreases outputs.len() - i,
    {
        i += 1;
    }
    proof {
        assert forall|j: int| 0 <= j < i implies (#[trigger] all[j]).player_id < players as nat by {
            assert(outputs@[j].player_id < players);
        }
        lemma_deliverable(players as nat, all, i as int);
    }
    i
}

/// Whether every output can be delivered, else what is wrong with the first that
/// cannot.
pub fn check_outputs(players: &[GamePlayerInfo], outputs: &[CachedPlayerOutput]) -> (result: Result<
    (),
    ServerError,
>)
    ensures
        result == delivery_result(players@.len(), cached_outputs_view(outputs@)),
        result is Ok ==> forall|i: int|
            0 <= i < outputs@.len() ==> (#[trigger] outputs@[i]).player_id < players@.len(),
{
    let n: usize = count_deliverable(players.len(), outputs);
    if n == outputs.len() {
        Ok(())
    } else {
        assert(cached_outputs_view(outputs@)[n as int] == outputs@[n as int]@);
        Err(
            ServerError::InvalidPlayerId {
                player_id: outputs[n].player_id,
                player_count: players.len(),
            },
        )
    }
}

/// Sends outputs to the players of a room, up to the first that cannot be
/// delivered.
pub fn send_outputs(
    players: &[GamePlayerInfo],
    outputs: &[CachedPlayerOutput],
    out: &mut Vec<Action>,
) -> (result: Result<(), ServerError>)
    ensures
        ({
            let all = cached_outputs_view(outputs@);
            let n = deliverable(players@.len(), all);
            &&& actions_view(final(out)@) == actions_view(old(out)@) + output_actions(
                players_view(players@),
                all.take(n as int),
            )
            &&& actions_wf(old(out)@) ==> actions_wf(final(out)@)
            &&& result == delivery_result(players@.len(), all)
        }),
{
    let ghost all = cached_outputs_view(outputs@);
    let ghost list = players_view(players@);
    let ghost before = actions_view(out@);
    let n: usize = count_deliverable(players.len(), outputs);
    let mut i: usize = 0;
    assert(actions_view(out@) =~= before + output_actions(list, all.take(0)));
    while i < n
        invariant
            i <= n <= outputs@.len(),
            all == cached_outputs_view(outputs@),
            list == players_view(players@),
            forall|j: int| 0 <= j < n ==> (#[trigger] outputs@[j]).player_id < players@.len(),
            actions_view(out@) == before + output_actions(list, all.take(i as int)),
            actions_wf(old(out)@) ==> actions_wf(out@),
        decreases n - i,
    {
        let output: &CachedPlayerOutput = &outputs[i];
        let addr: u64 = players[output.player_id].addr;
        let ghost sent = actions_view(out@);
        assert(all[i as int] == output@);
        assert(list[output.player_id as int].addr == addr);
        match &output.response {
            ServerResponse::GameData(data) => {
                send_packet(out, addr, GAME_DATA, build_game_data_packet(data.as_slice()));
            },
            ServerResponse::GameCache(position) => {
                send_packet(out, addr, GAME_CACHE, build_game_cache_packet(*position));
            },
        }
        assert(actions_view(out@) =~= sent.push(response_action(addr, output.response@)));
        i += 1;
        assert(output_actions(list, all.take(i as int)) =~= output_actions(
            list,
            all.take(i - 1),
        ).push(response_action(addr, output.response@)));
        assert(actions_view(out@) =~= before + output_actions(list, all.take(i as int)));
    }
    if n == outputs.len() {
        Ok(())
    } else {
        assert(all[n as int] == outputs@[n as int]@);
        Err(
            ServerError::InvalidPlayerId {
                player_id: outputs[n].player_id,
                player_count: players.len(),
            },
        )
    }
}

} // verus!
