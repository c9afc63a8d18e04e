//! What a session makes of packets, silence and its end.

use vstd::prelude::*;
#[allow(unused_imports)]
use vstd::utf8::encode_utf8;
#[allow(unused_imports)]
use crate::handlers::game::quit_game_outcome;
#[allow(unused_imports)]
use crate::handlers::util::{actions_view, yields, Action, ActionModel, Outcome};
#[allow(unused_imports)]
use crate::handlers::{acceptable, possible_outcome};
#[allow(unused_imports)]
use crate::kaillera::protocol::MessageModel;
#[allow(unused_imports)]
use crate::packet_util::{chat_body, user_message_body};
#[allow(unused_imports)]
use crate::session_manager::{
    addr_text, all_actions, counter_after, dead_in, dead_players, ended_outcome, in_sequence,
    is_dead, is_expired, is_stalled, known_identity, login_pending, messages_handled, seen,
    silence, stalled_in, stalled_players, starting_counter, state_after, timeout_outcome,
    CLEANUP_INTERVAL, LOGIN_ACK_RESEND_INTERVAL, PRE_LOGIN_TIMEOUT, SESSION_TIMEOUT,
    STALL_RESEND_INTERVAL,
};
#[allow(unused_imports)]
use crate::state::{ClientModel, GameModel, ServerError, ServerModel};
#[allow(unused_imports)]
use crate::text::{decimal, log_text};

verus! {

/// Messages are judged one by one, in the order of the packet: each is taken if it has
/// the number that is expected then, and only then the number that is expected goes up
/// by one, from 65535 to 0. A packet of one message numbered 0 starts the count afresh.
pub proof fn law_messages_are_judged_one_by_one(
    messages: Seq<MessageModel>,
    next: MessageModel,
    counter: u16,
)
    ensures
        in_sequence(Seq::empty(), counter) == Seq::<MessageModel>::empty(),
        counter_after(Seq::empty(), counter) == counter,
        in_sequence(messages.push(next), counter) == if next.message_number == counter_after(
            messages,
            counter,
        ) {
            in_sequence(messages, counter).push(next)
        } else {
            in_sequence(messages, counter)
        },
        counter_after(messages.push(next), counter) == if next.message_number == counter_after(
            messages,
            counter,
        ) {
            ((counter_after(messages, counter) + 1) % 65536) as u16
        } else {
            counter_after(messages, counter)
        },
        starting_counter(seq![next], counter) == if next.message_number == 0 {
            0
        } else {
            counter
        },
        messages.len() != 1 ==> starting_counter(messages, counter) == counter,
{
    assert(messages.push(next).drop_last() =~= messages);
}

/// What several requests send is what each of them sends, one after the other.
pub proof fn law_requests_send_in_order(outcomes: Seq<Outcome<()>>, next: Outcome<()>)
    ensures
        all_actions(Seq::empty()) == Seq::<ActionModel>::empty(),
        all_actions(outcomes.push(next)) == all_actions(outcomes) + next.actions,
{
    assert(outcomes.push(next).drop_last() =~= outcomes);
}

/// Whatever a packet holds, the client at its address has been heard of; nothing else
/// changes for that.
pub proof fn law_packet_is_a_sign_of_life(m: ServerModel, addr: u64, now_secs: u64)
    ensures
        m.client(addr) matches Some(client) ==> seen(m, addr, now_secs) == (ServerModel {
            by_id: m.by_id.insert(
                m.by_addr[addr],
                ClientModel { last_activity_secs: now_secs, ..client },
            ),
            ..m
        }),
        m.client(addr) is None ==> seen(m, addr, now_secs) == m,
{
}

/// A session remembers the first client it sees at its address, by its name and
/// number, and no other.
pub proof fn law_session_remembers_its_first_client(
    identity: Option<(Seq<char>, u16)>,
    m: ServerModel,
    addr: u64,
)
    ensures
        identity is Some ==> known_identity(identity, m, addr) == identity,
        identity is None ==> known_identity(identity, m, addr) == match m.client(addr) {
            Some(client) => Some((log_text(client.username), client.user_id)),
            None => None,
        },
{
}

/// When a session ends, its client leaves its room as if it had asked to, and is gone;
/// everybody else hears of it with the reason. Where nobody is logged in there is
/// nothing to tell, and no room changes.
pub proof fn law_ended_session_is_gone(m: ServerModel, addr: u64, reason: Seq<u8>)
    ensures
        ({
            let outcome = ended_outcome(m, addr, reason);
            let left = quit_game_outcome(m, addr);
            &&& outcome.result is Ok
            &&& !outcome.state.by_addr.dom().contains(addr)
            &&& m.client(addr) is Some && left.state.client(addr) is Some ==> {
                let client = left.state.client(addr)->0;
                &&& outcome.state == (ServerModel {
                    by_id: left.state.by_id.remove(left.state.by_addr[addr]),
                    by_addr: left.state.by_addr.remove(addr),
                    ..left.state
                })
                &&& outcome.actions == left.actions.push(
                    ActionModel::Send {
                        to: left.state.by_addr.dom().remove(addr),
                        message_type: 1,
                        data: user_message_body(client.username, client.user_id, reason),
                    },
                )
            }
            &&& m.client(addr) is None ==> {
                &&& outcome.actions.len() == 0
                &&& outcome.state.games == m.games
            }
        }),
{
    let outcome = ended_outcome(m, addr, reason);
    let left = quit_game_outcome(m, addr);
    if m.client(addr) is Some && left.state.client(addr) is Some {
        let client = left.state.client(addr)->0;
        assert(left.state.by_addr.remove(addr).dom() =~= left.state.by_addr.dom().remove(addr));
        assert(outcome.actions =~= left.actions.push(
            ActionModel::Send {
                to: left.state.by_addr.dom().remove(addr),
                message_type: 1,
                data: user_message_body(client.username, client.user_id, reason),
            },
        ));
    }
}

/// When a session times out, everybody hears so first, the name, number and address
/// being those of the client or, where it is gone, of the one the session remembers;
/// then the session ends for that reason.
pub proof fn law_timeout_is_announced(
    m: ServerModel,
    addr: u64,
    identity: Option<(Seq<char>, u16)>,
)
    ensures
        ({
            let outcome = timeout_outcome(m, addr, identity);
            let ended = ended_outcome(m, addr, encode_utf8("timeout"@));
            let who = match m.client(addr) {
                Some(client) => Some((log_text(client.username), client.user_id)),
                None => identity,
            };
            &&& outcome.result is Ok
            &&& outcome.state == ended.state
            &&& outcome.actions == match who {
                Some((name, user_id)) => seq![
                    ActionModel::Send {
                        to: m.by_addr.dom(),
                        message_type: 7,
                        data: chat_body(
                            encode_utf8("Server"@),
                            encode_utf8(
                                "[Server] "@ + name + " (#"@ + decimal(user_id as nat) + ", "@
                                    + addr_text(addr) + ") timed out (keepalive not received)"@,
                            ),
                        ),
                    },
                ] + ended.actions,
                None => ended.actions,
            }
        }),
{
    let ended = ended_outcome(m, addr, encode_utf8("timeout"@));
    assert(Seq::<ActionModel>::empty() + ended.actions =~= ended.actions);
}

/// An address is written as four decimal bytes with dots between them, a colon and the
/// port.
pub proof fn law_address_is_written_in_decimal(a: u8, b: u8, c: u8, d: u8, port: u16)
    ensures
        addr_text(
            (a * 0x100_0000_0000 + b * 0x1_0000_0000 + c * 0x100_0000 + d * 0x1_0000
                + port) as u64,
        ) == decimal(a as nat) + "."@ + decimal(b as nat) + "."@ + decimal(c as nat) + "."@
            + decimal(d as nat) + ":"@ + decimal(port as nat),
{
    let low = d * 0x1_0000 + port;
    let mid = c * 0x100_0000 + low;
    let high = b * 0x1_0000_0000 + mid;
    let all = a * 0x100_0000_0000 + high;
    let addr = all as u64;
    assert(0 <= low < 0x100_0000 && 0 <= mid < 0x1_0000_0000 && 0 <= high < 0x100_0000_0000);
    assert(addr == all);
    assert(addr / 0x100_0000_0000 == a && addr / 0x1_0000_0000 == a * 256 + b);
    assert(addr / 0x100_0000 == a * 65536 + b * 256 + c);
    assert(addr / 0x1_0000 == a * 16777216 + b * 65536 + c * 256 + d);
    assert(addr % 0x1_0000 == port);
    assert(addr / 0x1_0000_0000 % 256 == b);
    assert(addr / 0x100_0000 % 256 == c);
    assert(addr / 0x1_0000 % 256 == d);
}

/// A session is over when nothing was heard for more than two minutes.
pub proof fn law_sessions_expire_after_two_minutes(last_seen: u64, now: u64)
    ensures
        is_expired(last_seen, now) <==> now - last_seen > 120_000_000_000,
{
}

/// A login is pending for who is in no room and has not acknowledged four times.
pub proof fn law_pending_logins(m: ServerModel, addr: u64)
    ensures
        login_pending(m, addr) <==> (m.client(addr) matches Some(client) && client.game_id is None
            && client.ack_count < 4),
{
}

/// A player of a live game who is not dropped, was heard of, and has been silent for
/// `nanos`.
pub open spec fn silent_for(game: GameModel, slot: int, now: u64, nanos: int) -> bool {
    &&& 0 <= slot < game.players.len()
    &&& game.game_status == 1
    &&& game.sync matches Some(sync) ==> slot >= sync.inner.sync.delays.len()
        || !sync.inner.sync.dropped[slot]
    &&& game.players[slot].last_game_data_recv matches Some(last) && nanos == if now > last {
        now - last
    } else {
        0
    }
}

/// A silence of 15 seconds is the end; one from 100 milliseconds on, or from what the
/// player is granted, is a stall.
proof fn lemma_silence(game: GameModel, slot: int, now: u64)
    requires
        0 <= slot < game.players.len(),
    ensures
        is_stalled(game, slot, now) <==> exists|nanos: int| #[trigger]
            silent_for(game, slot, now, nanos) && nanos < 15_000_000_000 && nanos >= match
            game.players[slot].input_stall_grace {
                Some(grace) => grace,
                None => 100_000_000,
            },
        is_dead(game, slot, now) <==> exists|nanos: int| #[trigger]
            silent_for(game, slot, now, nanos) && nanos >= 15_000_000_000,
        silence(game, slot, now) matches Some(nanos) ==> silent_for(
            game,
            slot,
            now,
            nanos as int,
        ),
        forall|nanos: int| #[trigger]
            silent_for(game, slot, now, nanos) ==> silence(game, slot, now) == Some(nanos as nat),
{
    if let Some(nanos) = silence(game, slot, now) {
        assert(silent_for(game, slot, now, nanos as int));
    }
}

/// The players of a room who stall, and those who are gone.
proof fn lemma_silent_in(game: GameModel, now: u64, n: nat, addr: u64, nanos: u64)
    requires
        n <= game.players.len(),
    ensures
        stalled_in(game, now, n).contains((addr, nanos)) <==> exists|slot: int|
            0 <= slot < n && #[trigger] game.players[slot].addr == addr && silent_for(
                game,
                slot,
                now,
                nanos as int,
            ) && is_stalled(game, slot, now),
        dead_in(game, now, n).contains(addr) <==> exists|slot: int|
            0 <= slot < n && #[trigger] game.players[slot].addr == addr && is_dead(
                game,
                slot,
                now,
            ),
    decreases n,
{
    if n > 0 {
        let slot = n - 1;
        lemma_silent_in(game, now, slot as nat, addr, nanos);
        lemma_silence(game, slot, now);
        let before = stalled_in(game, now, slot as nat);
        let all = stalled_in(game, now, n);
        if is_stalled(game, slot, now) {
            let last = (game.players[slot].addr, silence(game, slot, now)->0 as u64);
            assert(all == before.push(last));
            assert(all[before.len() as int] == last);
            assert(all.contains((addr, nanos)) <==> before.contains((addr, nanos)) || last == (
                addr,
                nanos,
            )) by {
                if all.contains((addr, nanos)) {
                    let i = choose|i: int| 0 <= i < all.len() && all[i] == (addr, nanos);
                    if i < before.len() {
                        assert(before[i] == (addr, nanos));
                    }
                }
                if before.contains((addr, nanos)) {
                    let i = choose|i: int| 0 <= i < before.len() && before[i] == (addr, nanos);
                    assert(all[i] == (addr, nanos));
                }
            }
        }
        let gone_before = dead_in(game, now, slot as nat);
        let gone = dead_in(game, now, n);
        if is_dead(game, slot, now) {
            let last = game.players[slot].addr;
            assert(gone == gone_before.push(last));
            assert(gone[gone_before.len() as int] == last);
            assert(gone.contains(addr) <==> gone_before.contains(addr) || last == addr) by {
                if gone.contains(addr) {
                    let i = choose|i: int| 0 <= i < gone.len() && gone[i] == addr;
                    if i < gone_before.len() {
                        assert(gone_before[i] == addr);
                    }
                }
                if gone_before.contains(addr) {
                    let i = choose|i: int| 0 <= i < gone_before.len() && gone_before[i] == addr;
                    assert(gone[i] == addr);
                }
            }
        }
    }
}

/// Among a list of rooms, those are reported as stalled who are still waited for and
/// have been silent too long, with how long; those as gone who have been silent for 15
/// seconds; and nobody else. It takes a live game to be waited for.
pub proof fn law_silent_players_are_found(
    m: ServerModel,
    ids: Seq<u32>,
    now: u64,
    addr: u64,
    nanos: u64,
)
    ensures
        stalled_players(m, ids, now).contains((addr, nanos)) <==> exists|k: int, slot: int|
            0 <= k < ids.len() && #[trigger] silent_for(
                m.games[ids[k]],
                slot,
                now,
                nanos as int,
            ) && m.games[ids[k]].players[slot].addr == addr && nanos < 15_000_000_000 && nanos
                >= match m.games[ids[k]].players[slot].input_stall_grace {
                Some(grace) => grace,
                None => 100_000_000,
            },
        dead_players(m, ids, now).contains(addr) <==> exists|k: int, slot: int, long: int|
            0 <= k < ids.len() && #[trigger] silent_for(m.games[ids[k]], slot, now, long)
                && m.games[ids[k]].players[slot].addr == addr && long >= 15_000_000_000,
    decreases ids.len(),
{
    if ids.len() > 0 {
        let front = ids.drop_last();
        let game = m.games[ids.last()];
        let n = game.players.len();
        law_silent_players_are_found(m, front, now, addr, nanos);
        lemma_silent_in(game, now, n, addr, nanos);
        assert forall|slot: int| 0 <= slot < n implies {
            &&& #[trigger] is_stalled(game, slot, now) <==> exists|t: int| #[trigger]
                silent_for(game, slot, now, t) && t < 15_000_000_000 && t >= match
                game.players[slot].input_stall_grace {
                    Some(grace) => grace,
                    None => 100_000_000,
                }
            &&& is_dead(game, slot, now) <==> exists|t: int| #[trigger]
                silent_for(game, slot, now, t) && t >= 15_000_000_000
        } by {
            lemma_silence(game, slot, now);
        }
        let here = stalled_in(game, now, n);
        let all = stalled_players(m, ids, now);
        lemma_contains_either(stalled_players(m, front, now), here, (addr, nanos));
        lemma_contains_either(dead_players(m, front, now), dead_in(game, now, n), addr);
        let last = ids.len() - 1;
        if all.contains((addr, nanos)) {
            if here.contains((addr, nanos)) {
                let slot = choose|slot: int|
                    0 <= slot < n && #[trigger] game.players[slot].addr == addr && silent_for(
                        game,
                        slot,
                        now,
                        nanos as int,
                    ) && is_stalled(game, slot, now);
                lemma_silence(game, slot, now);
                assert(silent_for(m.games[ids[last]], slot, now, nanos as int));
            } else {
                let (k, slot) = choose|k: int, slot: int|
                    0 <= k < front.len() && #[trigger] silent_for(
                        m.games[front[k]],
                        slot,
                        now,
                        nanos as int,
                    ) && m.games[front[k]].players[slot].addr == addr && nanos < 15_000_000_000
                        && nanos >= match m.games[front[k]].players[slot].input_stall_grace {
                        Some(grace) => grace,
                        None => 100_000_000,
                    };
                assert(silent_for(m.games[ids[k]], slot, now, nanos as int));
            }
        }
        if exists|k: int, slot: int|
            0 <= k < ids.len() && #[trigger] silent_for(
                m.games[ids[k]],
                slot,
                now,
                nanos as int,
            ) && m.games[ids[k]].players[slot].addr == addr && nanos < 15_000_000_000 && nanos
                >= match m.games[ids[k]].players[slot].input_stall_grace {
                Some(grace) => grace,
                None => 100_000_000,
            } {
            let (k, slot) = choose|k: int, slot: int|
                0 <= k < ids.len() && #[trigger] silent_for(
                    m.games[ids[k]],
                    slot,
                    now,
                    nanos as int,
                ) && m.games[ids[k]].players[slot].addr == addr && nanos < 15_000_000_000 && nanos
                    >= match m.games[ids[k]].players[slot].input_stall_grace {
                    Some(grace) => grace,
                    None => 100_000_000,
                };
            if k < last {
                assert(silent_for(m.games[front[k]], slot, now, nanos as int));
            } else {
                assert(is_stalled(game, slot, now));
                assert(game.players[slot].addr == addr);
            }
        }
        if dead_players(m, ids, now).contains(addr) {
            if dead_in(game, now, n).contains(addr) {
                let slot = choose|slot: int|
                    0 <= slot < n && #[trigger] game.players[slot].addr == addr && is_dead(
                        game,
                        slot,
                        now,
                    );
                lemma_silence(game, slot, now);
                let long = choose|t: int| #[trigger]
                    silent_for(game, slot, now, t) && t >= 15_000_000_000;
                assert(silent_for(m.games[ids[last]], slot, now, long));
            } else {
                let (k, slot, long) = choose|k: int, slot: int, long: int|
                    0 <= k < front.len() && #[trigger] silent_for(
                        m.games[front[k]],
                        slot,
                        now,
                        long,
                    ) && m.games[front[k]].players[slot].addr == addr && long >= 15_000_000_000;
                assert(silent_for(m.games[ids[k]], slot, now, long));
            }
        }
        if exists|k: int, slot: int, long: int|
            0 <= k < ids.len() && #[trigger] silent_for(m.games[ids[k]], slot, now, long)
                && m.games[ids[k]].players[slot].addr == addr && long >= 15_000_000_000 {
            let (k, slot, long) = choose|k: int, slot: int, long: int|
                0 <= k < ids.len() && #[trigger] silent_for(m.games[ids[k]], slot, now, long)
                    && m.games[ids[k]].players[slot].addr == addr && long >= 15_000_000_000;
            if k < last {
                assert(silent_for(m.games[front[k]], slot, now, long));
            } else {
                lemma_silence(game, slot, now);
                assert(is_dead(game, slot, now));
                assert(game.players[slot].addr == addr);
            }
        }
    }
}

/// What is in two lists joined is in one of them.
proof fn lemma_contains_either<A>(a: Seq<A>, b: Seq<A>, x: A)
    ensures
        (a + b).contains(x) <==> a.contains(x) || b.contains(x),
{
    if (a + b).contains(x) {
        let i = choose|i: int| 0 <= i < (a + b).len() && (a + b)[i] == x;
        if i < a.len() {
            assert(a[i] == x);
        } else {
            assert(b[i - a.len()] == x);
        }
    }
    if a.contains(x) {
        let i = choose|i: int| 0 <= i < a.len() && a[i] == x;
        assert((a + b)[i] == x);
    }
    if b.contains(x) {
        let i = choose|i: int| 0 <= i < b.len() && b[i] == x;
        assert((a + b)[i + a.len()] == x);
    }
}

/// A handler that does what an outcome says leaves its state and its result, and adds
/// its actions, in order and no others, behind those that were there.
pub proof fn law_handlers_do_what_the_outcome_says(
    outcome: Outcome<()>,
    state: ServerModel,
    before: Seq<Action>,
    after: Seq<Action>,
    result: Result<(), ServerError>,
)
    requires
        yields(outcome, state, before, after, result),
    ensures
        state == outcome.state,
        result == outcome.result,
        after.len() == before.len() + outcome.actions.len(),
        forall|i: int| 0 <= i < before.len() ==> (#[trigger] after[i])@ == before[i]@,
        forall|i: int|
            0 <= i < outcome.actions.len() ==> (#[trigger] after[before.len() + i])@
                == outcome.actions[i],
{
    let old = actions_view(before);
    let new = actions_view(after);
    assert(new.len() == old.len() + outcome.actions.len());
    assert forall|i: int| 0 <= i < before.len() implies (#[trigger] after[i])@ == before[i]@ by {
        assert(new[i] == after[i]@);
        assert(old[i] == before[i]@);
    }
    assert forall|i: int| 0 <= i < outcome.actions.len() implies (
    #[trigger] after[before.len() + i])@ == outcome.actions[i] by {
        assert(new[before.len() + i] == after[before.len() + i]@);
    }
}

/// The messages of a packet are handled in turn, each in the state that the one before
/// left, until one that cannot be accepted; each has its own result.
pub proof fn law_messages_are_handled_in_turn(
    m: ServerModel,
    src: u64,
    messages: Seq<MessageModel>,
    now_secs: u64,
    now: u64,
    outcomes: Seq<Outcome<()>>,
    results: Seq<Result<(), ServerError>>,
    i: int,
)
    requires
        messages_handled(m, src, messages, now_secs, now, outcomes, results),
    ensures
        results.len() == outcomes.len() <= messages.len(),
        0 <= i < outcomes.len() ==> results[i] == outcomes[i].result && possible_outcome(
            if i == 0 {
                m
            } else {
                outcomes[i - 1].state
            },
            src,
            messages[i],
            now_secs,
            now,
            outcomes[i],
        ),
        outcomes.len() < messages.len() ==> !acceptable(
            state_after(m, outcomes, outcomes.len() as int),
            src,
            messages[outcomes.len() as int],
        ),
        state_after(m, outcomes, outcomes.len() as int) == if outcomes.len() == 0 {
            m
        } else {
            outcomes.last().state
        },
{
    if 0 <= i < outcomes.len() {
        assert(acceptable(state_after(m, outcomes, i), src, messages[i]));
    }
}

/// Who never logged in is let go after 15 seconds. Sessions are looked through every 3
/// seconds; a handshake message is sent again after 100 milliseconds, and what a
/// stalled player was sent last after 50.
pub proof fn law_times_of_a_session()
    ensures
        PRE_LOGIN_TIMEOUT == 15_000_000_000,
        SESSION_TIMEOUT == 8 * PRE_LOGIN_TIMEOUT,
        CLEANUP_INTERVAL == 3_000_000_000,
        LOGIN_ACK_RESEND_INTERVAL == 100_000_000,
        STALL_RESEND_INTERVAL == 50_000_000,
{
}

} // verus!
