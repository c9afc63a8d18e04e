//! What keeps a game going: nobody who dropped is waited for, every round reaches
//! every player, and every byte of an input is played.

use vstd::prelude::*;
#[allow(unused_imports)]
use super::cached::{lemma_after_drop_keeps, CachedModel};
#[allow(unused_imports)]
use super::combiner::{chunks, SyncModel};
#[allow(unused_imports)]
use super::delayed::DelayedModel;
#[allow(unused_imports)]
use super::input_cache::CACHE_SLOTS;
#[allow(unused_imports)]
use super::lockstep_laws::{
    events_in_range, law_every_player_is_sent_the_same_rounds, lemma_run_keeps, outputs_to, run,
    run_outputs, run_rounds, was_dropped, SyncEvent,
};
#[allow(unused_imports)]
use super::stream_laws::{lemma_batches_of_rounds, lemma_run_rounds_have};
#[allow(unused_imports)]
use super::types::{InputModel, OutputModel, ResponseModel};

verus! {

/// Progress. Exactly the players with a drop among the events are dropped, and none
/// of them ever holds a round back: while a frame waits in some player's queue, the
/// game waits for a player who is not dropped and whose queue is empty.
pub proof fn law_no_dropped_player_is_waited_for(
    delays: Seq<usize>,
    events: Seq<SyncEvent>,
    p: int,
)
    requires
        delays.len() <= usize::MAX,
        events_in_range(events, delays.len()),
        0 <= p < delays.len(),
    ensures
        run(delays, events).dropped[p] <==> events.contains(SyncEvent::Drop(p)),
        run(delays, events).inputs[p].len() > 0 ==> exists|q: int|
            0 <= q < delays.len() && !events.contains(SyncEvent::Drop(q)) && (
            #[trigger] run(delays, events).inputs[q]).len() == 0,
{
    let m = run(delays, events);
    lemma_run_keeps(delays, events);
    assert forall|q: int| 0 <= q < delays.len() implies (#[trigger] m.dropped[q]
        <==> events.contains(SyncEvent::Drop(q))) by {
        assert(m.dropped[q] == was_dropped(events, q));
        if events.contains(SyncEvent::Drop(q)) {
            let i = choose|i: int| 0 <= i < events.len() && events[i] == SyncEvent::Drop(q);
            assert(events[i] == SyncEvent::Drop(q));
        }
    }
    assert(m.dropped[p] <==> events.contains(SyncEvent::Drop(p)));
    if m.inputs[p].len() > 0 {
        assert(!m.ready());
        let q = choose|q: int| 0 <= q < m.players() && !#[trigger] m.has_frame_or_dropped(q);
        assert(!m.dropped[q] && m.inputs[q].len() == 0);
    }
}

/// Every round reaches every player, dropped or not: player `p` gets one output for
/// every `delays[p]` rounds of the game, which holds the frames of these rounds,
/// round by round and within each round player by player.
pub proof fn law_outputs_hold_every_round_once(
    delays: Seq<usize>,
    events: Seq<SyncEvent>,
    p: int,
)
    requires
        delays.len() <= usize::MAX,
        events_in_range(events, delays.len()),
        0 <= p < delays.len(),
        delays[p] > 0,
    ensures
        ({
            let rounds = run_rounds(delays, events);
            let outputs = outputs_to(run_outputs(delays, events), p);
            let delay = delays[p] as nat;
            &&& forall|i: int| 0 <= i < rounds.len() ==> (#[trigger] rounds[i]).len() == delays.len()
            &&& outputs.len() == rounds.len() / delay
            &&& forall|m: int|
                0 <= m < rounds.len() / delay ==> #[trigger] outputs[m] == rounds.subrange(
                    m * delay,
                    (m + 1) * delay,
                ).flatten().flatten()
        }),
{
    let rounds = run_rounds(delays, events);
    let delay = delays[p] as nat;
    lemma_run_keeps(delays, events);
    lemma_run_rounds_have(delays, events);
    law_every_player_is_sent_the_same_rounds(delays, events, p);
    lemma_batches_of_rounds(rounds, delays.len(), delay);
}

/// The pieces of an input: all but the last have `size` bytes, the last has at least
/// one and no more, and joined they are the input.
proof fn lemma_pieces(input: Seq<u8>, size: nat)
    requires
        size > 0,
    ensures
        chunks(input, size).flatten() == input,
        forall|i: int|
            0 <= i < chunks(input, size).len() - 1 ==> (#[trigger] chunks(input, size)[i]).len()
                == size,
        chunks(input, size).len() > 0 ==> 0 < chunks(input, size).last().len() <= size,
    decreases input.len(),
{
    let pieces = chunks(input, size);
    if input.len() == 0 {
        assert(pieces.flatten() =~= input);
    } else if input.len() <= size {
        assert(pieces.drop_first() =~= Seq::empty());
        assert(pieces.flatten() =~= input + Seq::<Seq<u8>>::empty().flatten());
        assert(pieces.flatten() =~= input);
    } else {
        let rest = input.skip(size as int);
        lemma_pieces(rest, size);
        assert(chunks(rest, size).len() > 0) by {
            assert(rest.len() > 0);
        }
        assert(pieces.drop_first() =~= chunks(rest, size));
        assert(pieces.flatten() =~= input.take(size as int) + rest);
        assert(pieces.flatten() =~= input);
        assert forall|i: int| 0 <= i < pieces.len() - 1 implies (#[trigger] pieces[i]).len()
            == size by {
            if i > 0 {
                assert(pieces[i] == chunks(rest, size)[i - 1]);
            }
        }
        assert(pieces.last() == chunks(rest, size).last());
    }
}

/// Every byte of an input is queued, in order, in pieces of as many bytes as the
/// player's delay goes into the input; only the last piece may be shorter. An input
/// shorter than the delay is dropped. No other queue changes, and the first input
/// that counts fixes the size of the frames that stand for dropped players.
pub proof fn law_input_is_queued_in_pieces(m: SyncModel, p: int, q: int, input: Seq<u8>)
    requires
        m.wf(),
        0 <= p < m.players(),
        0 <= q < m.players(),
        m.delays[p] > 0,
        input.len() <= usize::MAX,
    ensures
        ({
            let after = m.with_input(p, input);
            let size = input.len() / m.delays[p] as nat;
            let added = after.inputs[p].skip(m.inputs[p].len() as int);
            &&& q != p ==> after.inputs[q] == m.inputs[q]
            &&& after.dropped == m.dropped
            &&& after.buffers == m.buffers
            &&& after.delays == m.delays
            &&& after.inputs[p].take(m.inputs[p].len() as int) == m.inputs[p]
            &&& input.len() < m.delays[p] ==> after == m
            &&& input.len() >= m.delays[p] ==> {
                &&& added.len() > 0
                &&& added.flatten() == input
                &&& forall|i: int| 0 <= i < added.len() - 1 ==> (#[trigger] added[i]).len() == size
                &&& 0 < added.last().len() <= size
                &&& after.game_data_size == if m.game_data_size > 0 {
                    m.game_data_size as nat
                } else {
                    size
                }
            }
        }),
{
    let delay = m.delays[p] as nat;
    let size = input.len() / delay;
    let after = m.with_input(p, input);
    assert(input.len() < delay ==> size == 0) by (nonlinear_arith)
        requires
            size == input.len() / delay,
            delay > 0,
    ;
    assert(input.len() >= delay ==> size > 0) by (nonlinear_arith)
        requires
            size == input.len() / delay,
            delay > 0,
    ;
    assert(size <= input.len()) by (nonlinear_arith)
        requires
            size == input.len() / delay,
            delay > 0,
    ;
    if size > 0 {
        lemma_pieces(input, size);
        assert(after.inputs[p].skip(m.inputs[p].len() as int) =~= chunks(input, size));
        assert(chunks(input, size).len() > 0) by {
            assert(input.len() > 0);
        }
    }
    assert(after.inputs[p].take(m.inputs[p].len() as int) =~= m.inputs[p]);
}

/// An input of bytes stands for these bytes and is remembered as the newest entry of
/// its player's cache, at the cost of the oldest of 256. A position stands for the
/// entry at it, if there is one, and is not remembered. No other player's cache
/// changes.
pub proof fn law_inputs_are_remembered(m: CachedModel, p: int, q: int, data: Seq<u8>, pos: u8)
    requires
        m.wf(),
        0 <= p < m.players(),
        0 <= q < m.players(),
    ensures
        ({
            let cache = m.input_caches[p];
            let bytes = InputModel::GameData(data);
            let position = InputModel::GameCache(pos);
            &&& m.resolved(p, bytes) == Some(data)
            &&& m.resolved(p, position) == if pos < cache.len() {
                Some(cache[pos as int])
            } else {
                None
            }
            &&& m.combined(p, bytes).input_caches[p] == if cache.len() < 256 {
                cache.push(data)
            } else {
                cache.skip(1).push(data)
            }
            &&& m.combined(p, position).input_caches[p] == cache
            &&& q != p ==> m.combined(p, bytes).input_caches[q] == m.input_caches[q]
            &&& q != p ==> m.combined(p, position).input_caches[q] == m.input_caches[q]
        }),
{
}

/// Combined bytes travel as a position exactly when caching is on and the recipient
/// has them; otherwise in full, and then the recipient has them, at the cost of the
/// oldest of 256 entries. An eviction is reported exactly then, and the size of a
/// cache when it reaches a multiple of 64. No other player's cache changes.
pub proof fn law_known_output_travels_as_a_position(
    m: CachedModel,
    p: int,
    q: int,
    output: Seq<u8>,
)
    requires
        m.wf(),
        0 <= p < m.players(),
        0 <= q < m.players(),
    ensures
        ({
            let cache = m.output_caches[p];
            let known = !m.disable_output_cache && cache.contains(output);
            let after = m.after_response(p, output);
            &&& known ==> (m.response(p, output) matches ResponseModel::GameCache(pos) && pos
                < cache.len() && cache[pos as int] == output && forall|later: int|
                pos < later < cache.len() ==> cache[later] != output)
            &&& !known ==> m.response(p, output) == ResponseModel::GameData(output)
            &&& after.output_caches[p] == if known || m.disable_output_cache {
                cache
            } else if cache.len() < 256 {
                cache.push(output)
            } else {
                cache.skip(1).push(output)
            }
            &&& q != p ==> after.output_caches[q] == m.output_caches[q]
            &&& after.input_caches == m.input_caches
            &&& after.sync == m.sync
            &&& m.response_evicts(p, output) <==> !known && !m.disable_output_cache && cache.len()
                == 256
            &&& m.response_milestone(p, output) == if !known && !m.disable_output_cache && cache.len()
                < 256 && (cache.len() + 1) % 64 == 0 {
                Some((cache.len() + 1) as usize)
            } else {
                None
            }
        }),
{
    let cache = m.output_caches[p];
    assert(cache.len() <= CACHE_SLOTS);
    if cache.contains(output) {
        let i = choose|i: int| 0 <= i < cache.len() && cache[i] == output;
        super::cache_laws::law_found_position_holds_the_bytes(cache, output);
    }
}

/// A zero frame of the startup is as long as one input of every player: the number
/// of players times the size of the first input that was not empty. Once known, the
/// size stays.
pub proof fn law_zero_frames_have_the_size_of_a_frame(m: DelayedModel, p: int, input: InputModel)
    requires
        m.wf(),
        0 <= p < m.players(),
        m.resolved(p, input) matches Some(bytes) && bytes.len() <= usize::MAX,
    ensures
        ({
            let bytes = m.resolved(p, input)->0;
            let size = if m.frame_size > 0 {
                m.frame_size as nat
            } else {
                bytes.len()
            };
            &&& m.zero_frame_len(bytes) == m.players() * size
            &&& m.after_input(p, input).frame_size == size
        }),
{
}

/// Before the delay layer saves or hands on an input, the input stands for its bytes
/// and is remembered, as without a delay: a position stands for the entry at it when
/// it came. No other player's cache changes.
pub proof fn law_delayed_inputs_are_remembered(
    m: DelayedModel,
    p: int,
    q: int,
    data: Seq<u8>,
    pos: u8,
)
    requires
        m.wf(),
        0 <= p < m.players(),
        0 <= q < m.players(),
    ensures
        ({
            let cache = m.input_caches[p];
            let bytes = InputModel::GameData(data);
            let position = InputModel::GameCache(pos);
            &&& m.resolved(p, bytes) == Some(data)
            &&& m.resolved(p, position) == if pos < cache.len() {
                Some(cache[pos as int])
            } else {
                None
            }
            &&& m.after_input(p, bytes).input_caches[p] == if cache.len() < 256 {
                cache.push(data)
            } else {
                cache.skip(1).push(data)
            }
            &&& m.after_input(p, position).input_caches[p] == cache
            &&& q != p ==> m.after_input(p, bytes).input_caches[q] == m.input_caches[q]
            &&& q != p ==> m.after_input(p, position).input_caches[q] == m.input_caches[q]
        }),
{
}

/// Dropping a player at the cache layer drops it in the combiner and sends what the
/// combiner releases; at the delay layer its saved startup inputs are discarded too.
/// Nobody else's startup inputs, and no input cache, change.
pub proof fn law_drop_reaches_the_combiner(m: DelayedModel, p: int, q: int)
    requires
        m.wf(),
        0 <= p < m.players(),
        0 <= q < m.players(),
    ensures
        ({
            let after = m.after_drop(p);
            let combiner = m.inner.sync.with_dropped(p);
            &&& combiner == (SyncModel {
                dropped: m.inner.sync.dropped.update(p, true),
                ..m.inner.sync
            })
            &&& after.inner.sync == combiner.drained()
            &&& after.inner.input_caches == m.inner.input_caches
            &&& after.input_caches == m.input_caches
            &&& after.queues[p].len() == 0
            &&& q != p ==> after.queues[q] == m.queues[q]
            &&& after.warmup_sent == m.warmup_sent
            &&& after.total_delays == m.total_delays
            &&& m.inner.drop_responses(p).len() == combiner.drain_outputs().len()
            &&& forall|k: int|
                0 <= k < combiner.drain_outputs().len() ==> (
                #[trigger] m.inner.drop_responses(p)[k]).player_id
                    == combiner.drain_outputs()[k].player_id
        }),
{
    let combiner = m.inner.sync.with_dropped(p);
    let raw = combiner.drain_outputs();
    lemma_after_drop_keeps(m.inner, p);
    lemma_passed_on(m.inner.drop_combined(p), raw);
}

/// What is sent goes to whom it was combined for, and sending changes no combiner and
/// no input cache.
proof fn lemma_passed_on(m: CachedModel, raw: Seq<OutputModel>)
    ensures
        m.responses(raw).len() == raw.len(),
        forall|k: int|
            0 <= k < raw.len() ==> (#[trigger] m.responses(raw)[k]).player_id == raw[k].player_id,
        m.after_responses(raw).sync == m.sync,
        m.after_responses(raw).input_caches == m.input_caches,
        m.after_responses(raw).disable_output_cache == m.disable_output_cache,
    decreases raw.len(),
{
    if raw.len() > 0 {
        lemma_passed_on(m, raw.drop_last());
    }
}

/// An input at the cache layer is an input of the bytes it stands for at the combiner,
/// and what the combiner makes of it is sent, to whom it was combined for. At the
/// delay layer, after the startup, it is the same of what is due.
pub proof fn law_input_reaches_the_combiner(m: CachedModel, p: int, input: InputModel)
    requires
        m.wf(),
        0 <= p < m.players(),
        m.resolved(p, input) is Some,
    ensures
        ({
            let bytes = m.resolved(p, input)->0;
            let after = m.after_input(p, input);
            let fed = m.sync.with_input(p, bytes);
            let sent = m.input_responses(p, input);
            &&& after.sync == if m.sync.dropped[p] {
                m.sync
            } else {
                fed.drained()
            }
            &&& sent.len() == if m.sync.dropped[p] {
                0
            } else {
                fed.drain_outputs().len()
            }
            &&& forall|k: int|
                0 <= k < sent.len() ==> (#[trigger] sent[k]).player_id
                    == fed.drain_outputs()[k].player_id
        }),
{
    lemma_passed_on(m.combined(p, input), m.raw_outputs(p, input));
}

/// Whatever the combiner makes of an input or a drop while a client mirrors its cache,
/// several outputs are evicting or reach a milestone exactly when one of them does so
/// in its turn, and the last milestone counts.
pub proof fn law_reports_are_those_of_each_output(
    m: CachedModel,
    raw: Seq<OutputModel>,
    next: OutputModel,
)
    ensures
        ({
            let between = m.after_responses(raw);
            let p = next.player_id as int;
            &&& !m.responses_evict(Seq::empty())
            &&& m.responses_milestone(Seq::empty()) is None
            &&& m.responses_evict(raw.push(next)) <==> m.responses_evict(raw)
                || between.response_evicts(p, next.output)
            &&& m.responses_milestone(raw.push(next)) == match between.response_milestone(
                p,
                next.output,
            ) {
                Some(size) => Some(size),
                None => m.responses_milestone(raw),
            }
            &&& m.after_responses(raw.push(next)) == between.after_response(p, next.output)
            &&& m.responses(raw.push(next)).last().response == between.response(p, next.output)
        }),
{
    assert(raw.push(next).drop_last() =~= raw);
}

/// The outputs of a round go out in the order of the players.
pub proof fn law_outputs_of_a_round_go_in_player_order(m: SyncModel, n: nat, i: int, j: int)
    requires
        n <= m.players() <= usize::MAX,
        0 <= i <= j < m.round_outputs(n).len(),
    ensures
        m.round_outputs(n)[i].player_id <= m.round_outputs(n)[j].player_id < n,
    decreases n,
{
    let p = (n - 1) as nat;
    let before = m.round_outputs(p);
    if j < before.len() {
        law_outputs_of_a_round_go_in_player_order(m, p, i, j);
    } else if i < before.len() {
        law_outputs_of_a_round_go_in_player_order(m, p, i, i);
    }
}

/// Zero frames of the startup are reported neither as evictions nor as milestones;
/// after it, the reports are those of the cache layer for what is due.
pub proof fn law_startup_is_not_reported(m: DelayedModel, p: int, input: InputModel)
    requires
        m.wf(),
        0 <= p < m.players(),
        m.resolved(p, input) is Some,
    ensures
        ({
            let bytes = m.resolved(p, input)->0;
            let due = InputModel::GameData(
                if m.queues[p].len() > 0 {
                    m.queues[p][0]
                } else {
                    bytes
                },
            );
            let raw = m.inner.raw_outputs(p, due);
            &&& m.warmup_sent[p] < m.total_delays[p] ==> !m.input_evicts(p, input)
                && m.input_milestone(p, input) is None
            &&& m.warmup_sent[p] >= m.total_delays[p] ==> m.input_evicts(p, input)
                == m.inner.combined(p, due).responses_evict(raw) && m.input_milestone(p, input)
                == m.inner.combined(p, due).responses_milestone(raw)
        }),
{
}

} // verus!
