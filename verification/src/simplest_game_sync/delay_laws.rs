//! What the startup delay promises: zero frames first, then the saved inputs in
//! order, then the inputs as they come.

use vstd::prelude::*;
#[allow(unused_imports)]
use crate::bytes_util::zeros;
#[allow(unused_imports)]
use super::cache_laws::lemma_same_outputs;
#[allow(unused_imports)]
use super::cached::{
    lemma_after_drop_keeps, lemma_after_input_keeps, lemma_after_responses_keeps, CachedModel,
};
#[allow(unused_imports)]
use super::delayed::DelayedModel;
#[allow(unused_imports)]
use super::input_cache::CACHE_SLOTS;
#[allow(unused_imports)]
use super::lockstep_laws::law_drop_is_for_good;
#[allow(unused_imports)]
use super::types::{CachedOutputModel, InputModel};

verus! {

/// A delay layer that delays nobody, over a combiner that has seen the same
/// game as `bare`.
pub open spec fn passes_through(m: DelayedModel, bare: CachedModel) -> bool {
    &&& forall|p: int| 0 <= p < m.players() ==> #[trigger] m.total_delays[p] == 0
    &&& forall|p: int| 0 <= p < m.players() ==> (#[trigger] m.queues[p]).len() == 0
    &&& m.inner.sync == bare.sync
    &&& m.inner.output_caches == bare.output_caches
    &&& m.inner.disable_output_cache == bare.disable_output_cache
    &&& m.input_caches == bare.input_caches
}

/// A fresh delay layer without delay passes through.
pub proof fn law_no_delay_starts_as_passthrough(bare: CachedModel)
    requires
        bare.input_caches == Seq::new(bare.players(), |i: int| Seq::<Seq<u8>>::empty()),
    ensures
        passes_through(
            DelayedModel::initial(bare, Seq::new(bare.players(), |i: int| 0usize)),
            bare,
        ),
{
}

/// A delay of 0 is a transparent passthrough: every input gives the responses
/// that the bare combiner gives, and the two stay in step.
pub proof fn law_no_delay_is_transparent(
    m: DelayedModel,
    bare: CachedModel,
    p: int,
    input: InputModel,
)
    requires
        m.wf(),
        bare.wf(),
        passes_through(m, bare),
        0 <= p < m.players(),
    ensures
        m.resolved(p, input) == bare.resolved(p, input),
        m.can_process(p, input) == bare.can_process(p, input),
        m.resolved(p, input) is Some ==> {
            &&& m.input_responses(p, input) == bare.input_responses(p, input)
            &&& m.input_evicts(p, input) == bare.combined(p, input).responses_evict(
                bare.raw_outputs(p, input),
            )
            &&& m.input_milestone(p, input) == bare.combined(p, input).responses_milestone(
                bare.raw_outputs(p, input),
            )
            &&& passes_through(m.after_input(p, input), bare.after_input(p, input))
        },
{
    assert(m.total_delays[p] == 0);
    assert(m.queues[p].len() == 0);
    if m.resolved(p, input) is Some {
        let data = InputModel::GameData(m.resolved(p, input)->0);
        lemma_same_outputs(
            m.inner.combined(p, data),
            bare.combined(p, input),
            bare.raw_outputs(p, input),
        );
        lemma_after_input_keeps(m.inner, p, data);
        lemma_after_input_keeps(bare, p, input);
        let after = m.after_input(p, input);
        lemma_after_responses_keeps(
            bare.combined(p, input),
            bare.raw_outputs(p, input),
        );
        assert(after.input_caches == bare.after_input(p, input).input_caches);
        assert forall|q: int| 0 <= q < after.players() implies #[trigger] after.total_delays[q]
            == 0 by {
            assert(m.total_delays[q] == 0);
        }
        assert forall|q: int| 0 <= q < after.players() implies (
        #[trigger] after.queues[q]).len() == 0 by {
            assert(m.queues[q].len() == 0);
        }
    }
}

/// A dropped player passes through too: marking it on both sides keeps them in
/// step and releases the same responses.
pub proof fn law_no_delay_drops_alike(m: DelayedModel, bare: CachedModel, p: int)
    requires
        m.wf(),
        bare.wf(),
        passes_through(m, bare),
        0 <= p < m.players(),
    ensures
        m.inner.drop_responses(p) == bare.drop_responses(p),
        passes_through(m.after_drop(p), bare.after_drop(p)),
{
    lemma_same_outputs(
        m.inner.drop_combined(p),
        bare.drop_combined(p),
        bare.sync.with_dropped(p).drain_outputs(),
    );
    lemma_after_drop_keeps(m.inner, p);
    lemma_after_drop_keeps(bare, p);
    lemma_after_responses_keeps(
        bare.drop_combined(p),
        bare.sync.with_dropped(p).drain_outputs(),
    );
    let after = m.after_drop(p);
    assert forall|q: int| 0 <= q < after.players() implies #[trigger] after.total_delays[q] == 0 by {
        assert(m.total_delays[q] == 0);
    }
    assert forall|q: int| 0 <= q < after.players() implies (#[trigger] after.queues[q]).len()
        == 0 by {
        assert(m.queues[q].len() == 0);
    }
}

/// What a delay layer is told.
pub enum DelayEvent {
    Input(int, InputModel),
    Drop(int),
}

/// The player an event is about.
pub open spec fn about(event: DelayEvent) -> int {
    match event {
        DelayEvent::Input(p, _) => p,
        DelayEvent::Drop(p) => p,
    }
}

/// Every event is about one of `n` players, and player `p` is not dropped.
pub open spec fn keeps_playing(events: Seq<DelayEvent>, n: nat, p: int) -> bool {
    &&& forall|i: int| 0 <= i < events.len() ==> 0 <= #[trigger] about(events[i]) < n
    &&& forall|i: int| 0 <= i < events.len() ==> #[trigger] events[i] != DelayEvent::Drop(p)
}

/// The layer after these events. An input that does not resolve changes nothing.
pub open spec fn after_events(m: DelayedModel, events: Seq<DelayEvent>) -> DelayedModel
    decreases events.len(),
{
    if events.len() == 0 {
        m
    } else {
        let before = after_events(m, events.drop_last());
        match events.last() {
            DelayEvent::Input(p, input) => if before.resolved(p, input) is Some {
                before.after_input(p, input)
            } else {
                before
            },
            DelayEvent::Drop(p) => before.after_drop(p),
        }
    }
}

/// The bytes that player `p` sent with these events, each resolved when it came.
pub open spec fn arrived(m: DelayedModel, events: Seq<DelayEvent>, p: int) -> Seq<Seq<u8>>
    decreases events.len(),
{
    if events.len() == 0 {
        Seq::empty()
    } else {
        let before = after_events(m, events.drop_last());
        let earlier = arrived(m, events.drop_last(), p);
        match events.last() {
            DelayEvent::Input(q, input) => match before.resolved(q, input) {
                Some(bytes) => if q == p {
                    earlier.push(bytes)
                } else {
                    earlier
                },
                None => earlier,
            },
            DelayEvent::Drop(_) => earlier,
        }
    }
}

/// Dropping a player twice is dropping it once: the second drop changes nothing and
/// sends nothing. No drop brings another player back or drops it.
pub proof fn law_dropping_twice_is_dropping_once(m: DelayedModel, p: int)
    requires
        m.wf(),
        0 <= p < m.players(),
    ensures
        m.after_drop(p).after_drop(p) == m.after_drop(p),
        m.after_drop(p).inner.drop_responses(p) == Seq::<CachedOutputModel>::empty(),
        m.after_drop(p).inner.sync.dropped == m.inner.sync.dropped.update(p, true),
{
    let marked = m.inner.sync.with_dropped(p);
    law_drop_is_for_good(m.inner.sync, p, p, Seq::empty());
    let once = m.after_drop(p);
    lemma_after_drop_keeps(m.inner, p);
    lemma_after_responses_keeps(m.inner.drop_combined(p), marked.drain_outputs());
    assert(once.inner.sync == marked.drained());
    assert(once.inner.sync.with_dropped(p) =~= once.inner.sync);
    assert(once.inner.drop_combined(p) =~= once.inner);
    assert(once.queues.update(p, Seq::empty()) =~= once.queues);
    assert(once.after_drop(p) =~= once);
}

/// The startup inputs that wait, after `past` arrived at a delay of `delay`.
pub open spec fn saved_inputs(past: Seq<Seq<u8>>, delay: nat) -> Seq<Seq<u8>> {
    if past.len() <= delay {
        past
    } else if past.len() <= 2 * delay {
        past.subrange(past.len() - delay, delay as int)
    } else {
        Seq::empty()
    }
}

/// The startup schedule. Of player `p`'s inputs the first `D` are answered with
/// zero frames, the next `D` release the first `D` in order and are themselves
/// discarded, and all later ones are combined as they come, whether or not other
/// players are dropped meanwhile. Cache positions were resolved when they arrived,
/// whatever the cache holds by then. So the next input is answered with a zero
/// frame and leaves the combiner alone, or the combiner gets what is due, and what
/// it answers is sent.
pub proof fn law_startup_schedule(
    inner: CachedModel,
    delays: Seq<usize>,
    events: Seq<DelayEvent>,
    p: int,
    input: InputModel,
)
    requires
        inner.wf(),
        delays.len() == inner.players(),
        0 <= p < inner.players(),
        keeps_playing(events, inner.players(), p),
    ensures
        ({
            let start = DelayedModel::initial(inner, delays);
            let now = after_events(start, events);
            let past = arrived(start, events, p);
            let delay = delays[p] as nat;
            &&& now.wf()
            &&& now.players() == inner.players()
            &&& now.warming_up(p) <==> past.len() < delay
            &&& now.queues[p] == saved_inputs(past, delay)
            &&& now.resolved(p, input) matches Some(bytes) ==> {
                let due = InputModel::GameData(
                    if past.len() < 2 * delay {
                        past[past.len() - delay]
                    } else {
                        bytes
                    },
                );
                if past.len() < delay {
                    let zero = zeros(now.zero_frame_len(bytes));
                    &&& now.input_responses(p, input) == seq![
                        CachedOutputModel {
                            player_id: p as usize,
                            response: now.inner.response(p, zero),
                        },
                    ]
                    &&& now.after_input(p, input).inner == now.inner.after_response(p, zero)
                    &&& now.after_input(p, input).inner.sync == now.inner.sync
                } else {
                    &&& now.input_responses(p, input) == now.inner.input_responses(p, due)
                    &&& now.after_input(p, input).inner == now.inner.after_input(p, due)
                }
            }
        }),
{
    let start = DelayedModel::initial(inner, delays);
    lemma_schedule_state(inner, delays, events, p);
    let past = arrived(start, events, p);
    let delay = delays[p] as nat;
    if delay <= past.len() < 2 * delay {
        assert(saved_inputs(past, delay)[0] == past[past.len() - delay]);
    }
}

/// The state of player `p`'s startup buffer during the schedule.
proof fn lemma_schedule_state(
    inner: CachedModel,
    delays: Seq<usize>,
    events: Seq<DelayEvent>,
    p: int,
)
    requires
        inner.wf(),
        delays.len() == inner.players(),
        0 <= p < inner.players(),
        keeps_playing(events, inner.players(), p),
    ensures
        ({
            let start = DelayedModel::initial(inner, delays);
            let now = after_events(start, events);
            let past = arrived(start, events, p);
            let delay = delays[p] as nat;
            &&& now.wf()
            &&& now.players() == inner.players()
            &&& now.total_delays == delays
            &&& now.warmup_sent[p] == if past.len() < delay {
                past.len()
            } else {
                delay
            }
            &&& now.queues[p] == saved_inputs(past, delay)
        }),
    decreases events.len(),
{
    let start = DelayedModel::initial(inner, delays);
    let delay = delays[p] as nat;
    if events.len() == 0 {
        assert(start.queues[p] =~= saved_inputs(Seq::empty(), delay));
    } else {
        let front = events.drop_last();
        assert forall|i: int| 0 <= i < front.len() implies 0 <= #[trigger] about(front[i])
            < inner.players() by {
            assert(front[i] == events[i]);
        }
        assert forall|i: int| 0 <= i < front.len() implies #[trigger] front[i]
            != DelayEvent::Drop(p) by {
            assert(front[i] == events[i]);
        }
        lemma_schedule_state(inner, delays, front, p);
        let before = after_events(start, front);
        let earlier = arrived(start, front, p);
        let last = events[events.len() - 1];
        assert(0 <= about(last) < inner.players());
        match last {
            DelayEvent::Input(q, input) => {
                if before.resolved(q, input) is Some {
                    let now = before.after_input(q, input);
                    let bytes = before.resolved(q, input)->0;
                    lemma_input_keeps_wf(before, q, input);
                    if q == p {
                        let past = earlier.push(bytes);
                        if earlier.len() < delay {
                            assert(now.queues[p] =~= saved_inputs(past, delay));
                        } else if earlier.len() < 2 * delay {
                            assert(before.queues[p].len() > 0);
                            assert(now.queues[p] =~= saved_inputs(past, delay));
                        } else {
                            assert(before.queues[p].len() == 0);
                            assert(now.queues[p] =~= saved_inputs(past, delay));
                        }
                    }
                }
            },
            DelayEvent::Drop(q) => {
                assert(q != p);
                lemma_after_drop_keeps(before.inner, q);
            },
        }
    }
}

/// An input keeps the layer well-formed and its delays.
pub proof fn lemma_input_keeps_wf(m: DelayedModel, p: int, input: InputModel)
    requires
        m.wf(),
        0 <= p < m.players(),
        m.resolved(p, input) is Some,
    ensures
        m.after_input(p, input).wf(),
        m.after_input(p, input).players() == m.players(),
        m.after_input(p, input).total_delays == m.total_delays,
        m.after_input(p, input).inner.sync.delays == m.inner.sync.delays,
        m.after_input(p, input).inner.sync.dropped == m.inner.sync.dropped,
{
    let bytes = m.resolved(p, input)->0;
    let after = m.after_input(p, input);
    assert forall|q: int| 0 <= q < after.input_caches.len() implies (
    #[trigger] after.input_caches[q]).len() <= CACHE_SLOTS by {
        assert(m.input_caches[q].len() <= CACHE_SLOTS);
    }
    if m.warming_up(p) {
        let zero = zeros(m.zero_frame_len(bytes));
        let inner = m.inner.after_response(p, zero);
        assert forall|q: int| 0 <= q < inner.output_caches.len() implies (
        #[trigger] inner.output_caches[q]).len() <= CACHE_SLOTS by {
            assert(m.inner.output_caches[q].len() <= CACHE_SLOTS);
        }
    } else {
        lemma_after_input_keeps(m.inner, p, InputModel::GameData(m.released(p, bytes)));
    }
}

} // verus!
