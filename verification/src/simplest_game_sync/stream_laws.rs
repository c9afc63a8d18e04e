//! What a game without drops sends, output by output and frame by frame.

use vstd::prelude::*;
#[allow(unused_imports)]
use super::combiner::{batches, chunks, lemma_round_uses_input, waiting, SyncModel};
#[allow(unused_imports)]
use super::lockstep_laws::{
    column, drain_rounds, event_player, events_in_range, input_len,
    law_every_player_is_sent_the_same_rounds, law_rounds_hold_the_frames_in_order,
    lemma_flatten_concat, lemma_run_keeps, outputs_to, run, run_fills, run_outputs, run_rounds,
    sent_frames, was_dropped, zero_frames, SyncEvent,
};

verus! {

/// An input of one of the players, as many whole frames as the player's delay.
pub open spec fn whole_frames(delays: Seq<usize>, event: SyncEvent) -> bool {
    event matches SyncEvent::Input(p, input) && {
        &&& 0 <= p < delays.len()
        &&& 0 < input.len() <= usize::MAX
        &&& input.len() % delays[p] as nat == 0
    }
}

/// A game in which every player sends whole frames and nobody is dropped.
pub open spec fn undisturbed(delays: Seq<usize>, events: Seq<SyncEvent>) -> bool {
    &&& 0 < delays.len() <= usize::MAX
    &&& forall|p: int| 0 <= p < delays.len() ==> #[trigger] delays[p] > 0
    &&& forall|i: int| 0 <= i < events.len() ==> whole_frames(delays, #[trigger] events[i])
}

/// `k` is the fewest frames that any player sent.
pub open spec fn is_fewest(delays: Seq<usize>, events: Seq<SyncEvent>, k: nat) -> bool {
    &&& forall|p: int|
        0 <= p < delays.len() ==> k <= (#[trigger] sent_frames(delays, events, p)).len()
    &&& exists|p: int|
        0 <= p < delays.len() && k == (#[trigger] sent_frames(delays, events, p)).len()
}

/// The `f`-th frame of every player, in player order.
pub open spec fn frames_at(delays: Seq<usize>, events: Seq<SyncEvent>, f: int) -> Seq<Seq<u8>> {
    Seq::new(delays.len(), |j: int| sent_frames(delays, events, j)[f])
}

/// The bytes of `count` frames of every player from the `from`-th on: frame by
/// frame, and within each frame player by player.
pub open spec fn interleaved(
    delays: Seq<usize>,
    events: Seq<SyncEvent>,
    from: int,
    count: nat,
) -> Seq<u8> {
    Seq::new(count, |i: int| frames_at(delays, events, from + i)).flatten().flatten()
}

/// An input of whole frames is cut into as many equal frames as the delay says,
/// in order.
pub proof fn law_input_is_cut_into_equal_frames(input: Seq<u8>, delay: nat)
    requires
        delay > 0,
        input.len() > 0,
        input.len() % delay == 0,
    ensures
        ({
            let size = input.len() / delay;
            let frames = chunks(input, size);
            &&& size > 0
            &&& frames.len() == delay
            &&& forall|k: int|
                0 <= k < delay ==> #[trigger] frames[k] == input.subrange(
                    k * size,
                    (k + 1) * size,
                )
        }),
{
    let size = input.len() / delay;
    assert(size > 0 && input.len() == delay * size) by (nonlinear_arith)
        requires
            size == input.len() / delay,
            input.len() % delay == 0,
            input.len() > 0,
            delay > 0,
    ;
    lemma_equal_chunks(input, size, delay);
}

/// A byte string of `n` times `size` bytes makes `n` pieces of `size` bytes.
proof fn lemma_equal_chunks(input: Seq<u8>, size: nat, n: nat)
    requires
        size > 0,
        n > 0,
        input.len() == n * size,
    ensures
        chunks(input, size).len() == n,
        forall|k: int|
            0 <= k < n ==> #[trigger] chunks(input, size)[k] == input.subrange(
                k * size,
                (k + 1) * size,
            ),
    decreases n,
{
    let frames = chunks(input, size);
    if n == 1 {
        assert(n * size == size) by (nonlinear_arith)
            requires
                n == 1,
        ;
        assert(input.subrange(0, size as int) =~= input);
        assert forall|k: int| 0 <= k < n implies #[trigger] frames[k] == input.subrange(
            k * size,
            (k + 1) * size,
        ) by {
            assert(k == 0);
            assert(k * size == 0 && (k + 1) * size == size) by (nonlinear_arith)
                requires
                    k == 0,
            ;
        }
    } else {
        let rest = input.skip(size as int);
        let m = (n - 1) as nat;
        assert(n * size == size + m * size && m * size > 0) by (nonlinear_arith)
            requires
                n == m + 1,
                m > 0,
                size > 0,
        ;
        lemma_equal_chunks(rest, size, m);
        assert forall|k: int| 0 <= k < n implies #[trigger] frames[k] == input.subrange(
            k * size,
            (k + 1) * size,
        ) by {
            if k == 0 {
                assert(k * size == 0 && (k + 1) * size == size) by (nonlinear_arith)
                    requires
                        k == 0,
                ;
                assert(input.subrange(0, size as int) =~= input.take(size as int));
            } else {
                let j = k - 1;
                assert(frames[k] == chunks(rest, size)[j]);
                assert(j * size + size == k * size && (j + 1) * size + size == (k + 1) * size && 0
                    <= j * size && (j + 1) * size <= m * size && j * size <= (j + 1) * size)
                    by (nonlinear_arith)
                    requires
                        k == j + 1,
                        0 <= j < m,
                        size > 0,
                ;
                assert(rest.subrange(j * size, (j + 1) * size) =~= input.subrange(
                    k * size,
                    (k + 1) * size,
                ));
            }
        }
    }
}

/// Every one of these rounds has `n` frames.
pub open spec fn rounds_have(rounds: Seq<Seq<Seq<u8>>>, n: nat) -> bool {
    forall|i: int| 0 <= i < rounds.len() ==> (#[trigger] rounds[i]).len() == n
}

/// The rounds that are ready have a frame of every player.
proof fn lemma_drain_rounds_have(m: SyncModel)
    requires
        m.wf(),
    ensures
        rounds_have(drain_rounds(m), m.players()),
    decreases waiting(m.inputs),
{
    if m.ready() {
        lemma_round_uses_input(m);
        lemma_drain_rounds_have(m.after_round());
    }
}

/// The rounds of a game have a frame of every player.
pub proof fn lemma_run_rounds_have(delays: Seq<usize>, events: Seq<SyncEvent>)
    requires
        delays.len() <= usize::MAX,
        events_in_range(events, delays.len()),
    ensures
        rounds_have(run_rounds(delays, events), delays.len()),
    decreases events.len(),
{
    if events.len() > 0 {
        let past = events.drop_last();
        assert forall|i: int| 0 <= i < past.len() implies 0 <= #[trigger] event_player(past[i])
            < delays.len() by {
            assert(past[i] == events[i]);
        }
        lemma_run_rounds_have(delays, past);
        lemma_run_keeps(delays, past);
        let m = run(delays, past);
        let last = events[events.len() - 1];
        assert(0 <= event_player(last) < delays.len());
        match last {
            SyncEvent::Input(p, input) => {
                lemma_drain_rounds_have(m.with_input(p, input));
            },
            SyncEvent::Drop(p) => {
                lemma_drain_rounds_have(m.with_dropped(p));
            },
        }
    }
}

/// Rounds of `n` frames make a stream of as many times `n` frames.
proof fn lemma_stream_len(rounds: Seq<Seq<Seq<u8>>>, n: nat)
    requires
        rounds_have(rounds, n),
    ensures
        rounds.flatten().len() == rounds.len() * n,
    decreases rounds.len(),
{
    if rounds.len() > 0 {
        let rest = rounds.drop_first();
        assert forall|i: int| 0 <= i < rest.len() implies (#[trigger] rest[i]).len() == n by {
            assert(rest[i] == rounds[i + 1]);
        }
        lemma_stream_len(rest, n);
        assert(rounds[0].len() == n);
        assert(rounds.len() * n == n + rest.len() * n) by (nonlinear_arith)
            requires
                rounds.len() == rest.len() + 1,
        ;
    } else {
        assert(rounds.len() * n == 0) by (nonlinear_arith)
            requires
                rounds.len() == 0,
        ;
    }
}

/// Batches of `d` rounds out of a stream of rounds: one for every `d` rounds, with
/// the frames of these rounds.
pub proof fn lemma_batches_of_rounds(rounds: Seq<Seq<Seq<u8>>>, n: nat, d: nat)
    requires
        n > 0,
        d > 0,
        rounds_have(rounds, n),
    ensures
        batches(rounds.flatten(), d * n).len() == rounds.len() / d,
        forall|m: int|
            0 <= m < rounds.len() / d ==> #[trigger] batches(rounds.flatten(), d * n)[m]
                == rounds.subrange(m * d, (m + 1) * d).flatten().flatten(),
    decreases rounds.len(),
{
    let need = d * n;
    let stream = rounds.flatten();
    let len = rounds.len();
    lemma_stream_len(rounds, n);
    assert(need > 0) by (nonlinear_arith)
        requires
            need == d * n,
            d > 0,
            n > 0,
    ;
    if len < d {
        assert(len * n < d * n) by (nonlinear_arith)
            requires
                len < d,
                n > 0,
        ;
        assert(len / d == 0) by (nonlinear_arith)
            requires
                len < d,
        ;
    } else {
        let front = rounds.take(d as int);
        let rest = rounds.skip(d as int);
        assert(len * n >= d * n) by (nonlinear_arith)
            requires
                len >= d,
        ;
        assert(rounds =~= front + rest);
        lemma_flatten_concat(front, rest);
        assert forall|i: int| 0 <= i < front.len() implies (#[trigger] front[i]).len() == n by {
            assert(front[i] == rounds[i]);
        }
        assert forall|i: int| 0 <= i < rest.len() implies (#[trigger] rest[i]).len() == n by {
            assert(rest[i] == rounds[i + d]);
        }
        lemma_stream_len(front, n);
        lemma_batches_of_rounds(rest, n, d);
        assert(stream.take(need as int) =~= front.flatten());
        assert(stream.skip(need as int) =~= rest.flatten());
        let after = (len - d) as nat;
        assert(len / d == 1 + after / d) by (nonlinear_arith)
            requires
                len == after + d,
                d > 0,
        ;
        let all = batches(stream, need);
        assert forall|m: int| 0 <= m < len / d implies #[trigger] all[m] == rounds.subrange(
            m * d,
            (m + 1) * d,
        ).flatten().flatten() by {
            if m == 0 {
                assert(m * d == 0 && (m + 1) * d == d) by (nonlinear_arith)
                    requires
                        m == 0,
                ;
                assert(rounds.subrange(0, d as int) =~= front);
            } else {
                let j = m - 1;
                assert(all[m] == batches(rest.flatten(), need)[j]);
                assert(j * d + d == m * d && (j + 1) * d + d == (m + 1) * d && 0 <= j * d && (j + 1)
                    * d <= after && j * d <= (j + 1) * d) by (nonlinear_arith)
                    requires
                        m == j + 1,
                        0 <= j < after / d,
                        d > 0,
                ;
                assert(rest.subrange(j * d, (j + 1) * d) =~= rounds.subrange(
                    m * d,
                    (m + 1) * d,
                ));
            }
        }
    }
}

/// Without drops, the rounds of a game are the frames of all players side by side,
/// as many as the fewest that any player sent.
proof fn lemma_rounds_side_by_side(delays: Seq<usize>, events: Seq<SyncEvent>, k: nat)
    requires
        undisturbed(delays, events),
        is_fewest(delays, events, k),
    ensures
        events_in_range(events, delays.len()),
        run_rounds(delays, events).len() == k,
        forall|f: int|
            0 <= f < k ==> #[trigger] run_rounds(delays, events)[f] == frames_at(
                delays,
                events,
                f,
            ),
{
    assert forall|i: int| 0 <= i < events.len() implies 0 <= #[trigger] event_player(events[i])
        < delays.len() by {
        assert(whole_frames(delays, events[i]));
    }
    assert forall|i: int| 0 <= i < events.len() implies #[trigger] input_len(events[i])
        <= usize::MAX by {
        assert(whole_frames(delays, events[i]));
    }
    let rounds = run_rounds(delays, events);
    let end = run(delays, events);
    lemma_run_keeps(delays, events);
    lemma_run_rounds_have(delays, events);
    assert forall|p: int| 0 <= p < delays.len() implies {
        &&& !end.dropped[p]
        &&& column(rounds, p) + end.inputs[p] == #[trigger] sent_frames(delays, events, p)
    } by {
        assert(end.dropped[p] == was_dropped(events, p));
        if was_dropped(events, p) {
            let i = choose|i: int|
                0 <= i < events.len() && #[trigger] events[i] == SyncEvent::Drop(p);
            assert(whole_frames(delays, events[i]));
        }
        law_rounds_hold_the_frames_in_order(delays, events, p);
        assert(run_fills(delays, events, p) == 0);
        let sent = sent_frames(delays, events, p);
        assert(sent + zero_frames(0, end.game_data_size as nat) =~= sent);
    }
    let low = choose|p: int|
        0 <= p < delays.len() && k == (#[trigger] sent_frames(delays, events, p)).len();
    assert(rounds.len() <= sent_frames(delays, events, low).len());
    let idle = choose|p: int| 0 <= p < delays.len() && #[trigger] end.inputs[p].len() == 0;
    assert(exists|p: int| 0 <= p < delays.len() && #[trigger] end.inputs[p].len() == 0) by {
        if forall|p: int| 0 <= p < delays.len() ==> #[trigger] end.inputs[p].len() > 0 {
            assert(end.inputs[0].len() > 0);
            assert(end.ready());
        }
    }
    assert(k <= sent_frames(delays, events, idle).len());
    assert(rounds.len() == sent_frames(delays, events, idle).len());
    assert forall|f: int| 0 <= f < k implies #[trigger] rounds[f] == frames_at(
        delays,
        events,
        f,
    ) by {
        assert(rounds[f].len() == delays.len());
        assert forall|j: int| 0 <= j < delays.len() implies rounds[f][j] == frames_at(
            delays,
            events,
            f,
        )[j] by {
            let sent = sent_frames(delays, events, j);
            assert(column(rounds, j) + end.inputs[j] == sent);
            assert(column(rounds, j)[f] == sent[f]);
        }
        assert(rounds[f] =~= frames_at(delays, events, f));
    }
}

/// Lockstep, output by output. In a game in which every player sends whole frames
/// and nobody is dropped, with `k` the fewest frames that any player sent, player
/// `p` gets exactly one output for every `delays[p]` of the `k` frames; the `m`-th
/// holds frames `m * delays[p]` up to `(m + 1) * delays[p]` of all players, frame
/// by frame and within each frame player by player. So all players get the same
/// bytes, and no frame is lost, repeated or moved.
pub proof fn law_outputs_hold_every_frame_once(
    delays: Seq<usize>,
    events: Seq<SyncEvent>,
    k: nat,
    p: int,
)
    requires
        undisturbed(delays, events),
        is_fewest(delays, events, k),
        0 <= p < delays.len(),
    ensures
        ({
            let outputs = outputs_to(run_outputs(delays, events), p);
            let delay = delays[p] as nat;
            &&& outputs.len() == k / delay
            &&& forall|m: int|
                0 <= m < k / delay ==> #[trigger] outputs[m] == interleaved(
                    delays,
                    events,
                    m * delay,
                    delay,
                )
        }),
{
    let n = delays.len();
    let delay = delays[p] as nat;
    let rounds = run_rounds(delays, events);
    assert(delays[p] > 0);
    lemma_rounds_side_by_side(delays, events, k);
    lemma_run_keeps(delays, events);
    lemma_run_rounds_have(delays, events);
    law_every_player_is_sent_the_same_rounds(delays, events, p);
    assert(run(delays, events).batch_len(p) == delay * n);
    lemma_batches_of_rounds(rounds, n, delay);
    let outputs = outputs_to(run_outputs(delays, events), p);
    assert forall|m: int| 0 <= m < k / delay implies #[trigger] outputs[m] == interleaved(
        delays,
        events,
        m * delay,
        delay,
    ) by {
        assert(0 <= m * delay && m * delay + delay == (m + 1) * delay && (m + 1) * delay <= k)
            by (nonlinear_arith)
            requires
                0 <= m < k / delay,
                delay > 0,
        ;
        let some = rounds.subrange(m * delay, (m + 1) * delay);
        let wanted = Seq::new(delay, |i: int| frames_at(delays, events, m * delay + i));
        assert forall|i: int| 0 <= i < delay implies some[i] == wanted[i] by {
            assert(rounds[m * delay + i] == frames_at(delays, events, m * delay + i));
        }
        assert(some =~= wanted);
    }
}

} // verus!
