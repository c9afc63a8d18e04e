//! What clients are told of each other: the lobby, and the players of a room.

use vstd::prelude::*;
#[allow(unused_imports)]
use crate::kaillera::message_types::SERVER_STATUS;
#[allow(unused_imports)]
use crate::map_util::lists_keys;
#[allow(unused_imports)]
use crate::packet_util::{
    server_status_body, user_joined_body, GameEntryModel, PlayerEntryModel, UserEntryModel,
};
#[allow(unused_imports)]
use crate::state::{ClientModel, PlayerModel, ServerModel};
#[allow(unused_imports)]
use super::util::{is_server_status, other_players, other_users, to_one, ActionModel};
#[allow(unused_imports)]
use super::{ack_outcome, ack_snapshot, measured};

verus! {

/// Filtering a list without duplicates leaves none, and keeps what passes.
pub proof fn lemma_filter_distinct<A>(list: Seq<A>, pred: spec_fn(A) -> bool)
    ensures
        forall|a: A| #[trigger]
            list.filter(pred).contains(a) <==> list.contains(a) && pred(a),
        list.no_duplicates() ==> list.filter(pred).no_duplicates(),
    decreases list.len(),
{
    reveal(Seq::filter);
    if list.len() > 0 {
        let front = list.drop_last();
        let last = list.last();
        lemma_filter_distinct(front, pred);
        let kept = list.filter(pred);
        let before = front.filter(pred);
        assert(list =~= front.push(last));
        assert forall|a: A| #[trigger] kept.contains(a) <==> list.contains(a) && pred(a) by {
            if kept.contains(a) {
                let i = choose|i: int| 0 <= i < kept.len() && kept[i] == a;
                if i < before.len() {
                    assert(before[i] == a);
                    assert(before.contains(a));
                    let j = choose|j: int| 0 <= j < front.len() && front[j] == a;
                    assert(list[j] == a);
                } else {
                    assert(list[list.len() - 1] == a);
                }
            }
            if list.contains(a) && pred(a) {
                let j = choose|j: int| 0 <= j < list.len() && list[j] == a;
                if j < front.len() {
                    assert(front[j] == a);
                    assert(before.contains(a));
                    let i = choose|i: int| 0 <= i < before.len() && before[i] == a;
                    assert(kept[i] == a);
                } else {
                    assert(kept[kept.len() - 1] == a);
                }
            }
        }
        if list.no_duplicates() {
            assert(front.no_duplicates());
            assert forall|i: int, j: int|
                0 <= i < kept.len() && 0 <= j < kept.len() && i != j implies kept[i] != kept[j] by {
                if i < before.len() && j < before.len() {
                    assert(before[i] != before[j]);
                } else {
                    let k = if i < before.len() {
                        i
                    } else {
                        j
                    };
                    assert(before.contains(before[k]));
                    let f = choose|f: int| 0 <= f < front.len() && front[f] == before[k];
                    assert(list[f] != list[list.len() - 1]);
                }
            }
        }
    } else {
        assert(list.filter(pred) =~= list);
    }
}

/// The list of a room's players for the one at `src` has exactly the others, in the
/// order of their slots: the `k`-th entry is the `k`-th player at another address,
/// with its name, number and connection type, and the ping of its client.
pub proof fn law_player_list_has_all_others(m: ServerModel, players: Seq<PlayerModel>, src: u64)
    ensures
        ({
            let others = players.filter(|p: PlayerModel| p.addr != src);
            other_players(m, players, src) == Seq::new(
                others.len(),
                |k: int|
                    PlayerEntryModel {
                        username: others[k].username,
                        ping: match m.client(others[k].addr) {
                            Some(client) => client.ping,
                            None => 0,
                        },
                        user_id: others[k].user_id,
                        conn_type: others[k].conn_type,
                    },
            )
        }),
    decreases players.len(),
{
    reveal(Seq::filter);
    let pred = |p: PlayerModel| p.addr != src;
    let others = players.filter(pred);
    if players.len() > 0 {
        law_player_list_has_all_others(m, players.drop_last(), src);
        let before = players.drop_last().filter(pred);
        assert(others == if pred(players.last()) {
            before.push(players.last())
        } else {
            before
        });
    }
    assert(other_players(m, players, src) =~= Seq::new(
        others.len(),
        |k: int|
            PlayerEntryModel {
                username: others[k].username,
                ping: match m.client(others[k].addr) {
                    Some(client) => client.ping,
                    None => 0,
                },
                user_id: others[k].user_id,
                conn_type: others[k].conn_type,
            },
    ));
}

/// `data` is the lobby with the users at `addrs` and the rooms `ids`: every address
/// but `src` where somebody is logged in, once, whatever room or status it has, and
/// every room, once.
pub open spec fn shows_the_lobby(
    m: ServerModel,
    src: u64,
    data: Seq<u8>,
    addrs: Seq<u64>,
    ids: Seq<u32>,
) -> bool {
    &&& addrs.no_duplicates()
    &&& forall|a: u64| #[trigger] addrs.contains(a) <==> a != src && m.client(a) is Some
    &&& ids.no_duplicates()
    &&& forall|g: u32| #[trigger] ids.contains(g) <==> m.games.dom().contains(g)
    &&& data == server_status_body(
        Seq::new(
            addrs.len(),
            |i: int|
                UserEntryModel {
                    username: (m.client(addrs[i])->0).username,
                    ping: (m.client(addrs[i])->0).ping,
                    player_status: (m.client(addrs[i])->0).player_status,
                    user_id: (m.client(addrs[i])->0).user_id,
                    conn_type: (m.client(addrs[i])->0).conn_type,
                },
        ),
        Seq::new(
            ids.len(),
            |i: int|
                GameEntryModel {
                    game_name: m.games[ids[i]].game_name,
                    game_id: m.games[ids[i]].game_id,
                    emulator_name: m.games[ids[i]].emulator_name,
                    owner: m.games[ids[i]].owner,
                    num_players: m.games[ids[i]].num_players,
                    max_players: m.games[ids[i]].max_players,
                    game_status: m.games[ids[i]].game_status,
                },
        ),
    )
}

/// The users of a snapshot, for any list of addresses.
proof fn lemma_users_listed(m: ServerModel, addrs: Seq<u64>, src: u64)
    ensures
        ({
            let kept = addrs.filter(|a: u64| a != src && m.client(a) is Some);
            other_users(m, addrs, src) == Seq::new(
                kept.len(),
                |i: int|
                    UserEntryModel {
                        username: (m.client(kept[i])->0).username,
                        ping: (m.client(kept[i])->0).ping,
                        player_status: (m.client(kept[i])->0).player_status,
                        user_id: (m.client(kept[i])->0).user_id,
                        conn_type: (m.client(kept[i])->0).conn_type,
                    },
            )
        }),
    decreases addrs.len(),
{
    reveal(Seq::filter);
    let pred = |a: u64| a != src && m.client(a) is Some;
    let kept = addrs.filter(pred);
    if addrs.len() > 0 {
        lemma_users_listed(m, addrs.drop_last(), src);
        let before = addrs.drop_last().filter(pred);
        assert(kept == if pred(addrs.last()) {
            before.push(addrs.last())
        } else {
            before
        });
    }
    assert(other_users(m, addrs, src) =~= Seq::new(
        kept.len(),
        |i: int|
            UserEntryModel {
                username: (m.client(kept[i])->0).username,
                ping: (m.client(kept[i])->0).ping,
                player_status: (m.client(kept[i])->0).player_status,
                user_id: (m.client(kept[i])->0).user_id,
                conn_type: (m.client(kept[i])->0).conn_type,
            },
    ));
}

/// A snapshot of the lobby is the full list: everybody else who is logged in, in a
/// room or not, and every room, waiting or not.
pub proof fn law_snapshot_is_the_full_lobby(m: ServerModel, src: u64, data: Seq<u8>)
    requires
        is_server_status(m, src, data),
    ensures
        exists|addrs: Seq<u64>, ids: Seq<u32>| #[trigger]
            shows_the_lobby(m, src, data, addrs, ids),
{
    let (all, ids) = choose|addrs: Seq<u64>, ids: Seq<u32>|
        #![trigger lists_keys(addrs, m.by_addr), lists_keys(ids, m.games)]
        lists_keys(addrs, m.by_addr) && lists_keys(ids, m.games) && data == server_status_body(
            other_users(m, addrs, src),
            ids.map_values(|id: u32| super::util::game_entry(m.games[id])),
        );
    let pred = |a: u64| a != src && m.client(a) is Some;
    let addrs = all.filter(pred);
    lemma_filter_distinct(all, pred);
    lemma_users_listed(m, all, src);
    assert forall|a: u64| #[trigger] addrs.contains(a) <==> a != src && m.client(a) is Some by {
        assert(all.to_set().contains(a) <==> m.by_addr.dom().contains(a));
    }
    assert forall|g: u32| #[trigger] ids.contains(g) <==> m.games.dom().contains(g) by {
        assert(ids.to_set().contains(g) <==> m.games.dom().contains(g));
    }
    assert(ids.map_values(|id: u32| super::util::game_entry(m.games[id])) =~= Seq::new(
        ids.len(),
        |i: int|
            GameEntryModel {
                game_name: m.games[ids[i]].game_name,
                game_id: m.games[ids[i]].game_id,
                emulator_name: m.games[ids[i]].emulator_name,
                owner: m.games[ids[i]].owner,
                num_players: m.games[ids[i]].num_players,
                max_players: m.games[ids[i]].max_players,
                game_status: m.games[ids[i]].game_status,
            },
    ));
    assert(shows_the_lobby(m, src, data, addrs, ids));
}

/// The fourth acknowledgement, and any after it, ends the handshake: the client, and
/// nobody else, gets the full lobby, and everybody who is logged in, the client
/// included, hears of it with its name, number, ping and connection type.
pub proof fn law_login_ends_with_the_lobby(
    m: ServerModel,
    src: u64,
    now: u64,
    snapshot: Seq<u8>,
)
    requires
        m.client(src) matches Some(client) && client.last_ping_time is Some && 3
            <= client.ack_count < u16::MAX,
        ack_snapshot(m, src, now, snapshot),
    ensures
        ({
            let outcome = ack_outcome(m, src, now, snapshot);
            let before = m.client(src)->0;
            let client = outcome.state.client(src)->0;
            &&& outcome.result is Ok
            &&& outcome.actions[0] == (ActionModel::Send {
                to: set![src],
                message_type: 4,
                data: snapshot,
            })
            &&& outcome.actions[1] == (ActionModel::Send {
                to: m.by_addr.dom(),
                message_type: 2,
                data: user_joined_body(
                    before.username,
                    before.user_id,
                    client.ping,
                    before.conn_type,
                ),
            })
            &&& outcome.state.client(src) is Some
            &&& client == (ClientModel {
                ping: client.ping,
                ack_count: (before.ack_count + 1) as u16,
                ping_total: client.ping_total,
                ..before
            })
            &&& outcome.state == (ServerModel { by_id: outcome.state.by_id, ..m })
            &&& exists|addrs: Seq<u64>, ids: Seq<u32>| #[trigger]
                shows_the_lobby(outcome.state, src, snapshot, addrs, ids)
        }),
{
    let outcome = ack_outcome(m, src, now, snapshot);
    let known = measured(m.client(src)->0, now);
    assert(known.ack_count == m.client(src)->0.ack_count + 1);
    assert(outcome.state == m.with_client(src, known));
    assert(outcome.actions[0] == to_one(src, SERVER_STATUS, snapshot));
    law_snapshot_is_the_full_lobby(outcome.state, src, snapshot);
}

} // verus!
