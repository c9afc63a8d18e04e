//! What holds of a whole game: every player is sent the same rounds, and the
//! rounds hold every player's frames in order.

use vstd::prelude::*;
#[allow(unused_imports)]
use crate::bytes_util::zeros;
#[allow(unused_imports)]
use super::combiner::{
    addressed, batches, chunks, leftover, lemma_drained_keeps, lemma_round_uses_input, waiting,
    SyncModel,
};
#[allow(unused_imports)]
use super::types::OutputModel;

verus! {

/// What a combiner is told.
pub enum SyncEvent {
    Input(int, Seq<u8>),
    Drop(int),
}

/// The player an event is about.
pub open spec fn event_player(event: SyncEvent) -> int {
    match event {
        SyncEvent::Input(p, _) => p,
        SyncEvent::Drop(p) => p,
    }
}

/// Every event is about one of `n` players.
pub open spec fn events_in_range(events: Seq<SyncEvent>, n: nat) -> bool {
    forall|i: int| 0 <= i < events.len() ==> 0 <= #[trigger] event_player(events[i]) < n
}

/// The combiner after one event.
pub open spec fn stepped(m: SyncModel, event: SyncEvent) -> SyncModel {
    match event {
        SyncEvent::Input(p, input) => m.after_input(p, input),
        SyncEvent::Drop(p) => m.with_dropped(p).drained(),
    }
}

/// What one event sends.
pub open spec fn step_outputs(m: SyncModel, event: SyncEvent) -> Seq<OutputModel> {
    match event {
        SyncEvent::Input(p, input) => m.input_outputs(p, input),
        SyncEvent::Drop(p) => m.with_dropped(p).drain_outputs(),
    }
}

/// The rounds that are ready, in the order they are played.
pub open spec fn drain_rounds(m: SyncModel) -> Seq<Seq<Seq<u8>>>
    decreases waiting(m.inputs),
    when m.wf()
{
    if m.ready() {
        proof {
            lemma_round_uses_input(m);
        }
        seq![m.round()] + drain_rounds(m.after_round())
    } else {
        Seq::empty()
    }
}

/// The rounds that one event plays.
pub open spec fn step_rounds(m: SyncModel, event: SyncEvent) -> Seq<Seq<Seq<u8>>> {
    match event {
        SyncEvent::Input(p, input) => if m.dropped[p] {
            Seq::empty()
        } else {
            drain_rounds(m.with_input(p, input))
        },
        SyncEvent::Drop(p) => drain_rounds(m.with_dropped(p)),
    }
}

/// The combiner of a game after these events.
pub open spec fn run(delays: Seq<usize>, events: Seq<SyncEvent>) -> SyncModel
    decreases events.len(),
{
    if events.len() == 0 {
        SyncModel::initial(delays)
    } else {
        stepped(run(delays, events.drop_last()), events.last())
    }
}

/// Everything a game sends during these events.
pub open spec fn run_outputs(delays: Seq<usize>, events: Seq<SyncEvent>) -> Seq<OutputModel>
    decreases events.len(),
{
    if events.len() == 0 {
        Seq::empty()
    } else {
        run_outputs(delays, events.drop_last()) + step_outputs(
            run(delays, events.drop_last()),
            events.last(),
        )
    }
}

/// All rounds a game plays during these events.
pub open spec fn run_rounds(delays: Seq<usize>, events: Seq<SyncEvent>) -> Seq<Seq<Seq<u8>>>
    decreases events.len(),
{
    if events.len() == 0 {
        Seq::empty()
    } else {
        run_rounds(delays, events.drop_last()) + step_rounds(
            run(delays, events.drop_last()),
            events.last(),
        )
    }
}

/// The outputs for player `p`, in order.
pub open spec fn outputs_to(outputs: Seq<OutputModel>, p: int) -> Seq<Seq<u8>>
    decreases outputs.len(),
{
    if outputs.len() == 0 {
        Seq::empty()
    } else if outputs.last().player_id == p {
        outputs_to(outputs.drop_last(), p).push(outputs.last().output)
    } else {
        outputs_to(outputs.drop_last(), p)
    }
}

/// The frames of player `p` in these rounds.
pub open spec fn column(rounds: Seq<Seq<Seq<u8>>>, p: int) -> Seq<Seq<u8>> {
    Seq::new(rounds.len(), |i: int| rounds[i][p])
}

/// Player `p` was dropped during these events.
pub open spec fn was_dropped(events: Seq<SyncEvent>, p: int) -> bool {
    exists|i: int| 0 <= i < events.len() && #[trigger] events[i] == SyncEvent::Drop(p)
}

/// The frames that player `p` sent during these events, before it was dropped.
pub open spec fn sent_frames(delays: Seq<usize>, events: Seq<SyncEvent>, p: int) -> Seq<Seq<u8>>
    decreases events.len(),
{
    if events.len() == 0 {
        Seq::empty()
    } else {
        let before = sent_frames(delays, events.drop_last(), p);
        match events.last() {
            SyncEvent::Input(q, input) => {
                let size = SyncModel::initial(delays).chunk_size(p, input);
                if q == p && !was_dropped(events.drop_last(), p) && size > 0 {
                    before + chunks(input, size)
                } else {
                    before
                }
            },
            SyncEvent::Drop(_) => before,
        }
    }
}

/// `k` zero frames of `size` bytes.
pub open spec fn zero_frames(k: nat, size: nat) -> Seq<Seq<u8>> {
    Seq::new(k, |i: int| zeros(size))
}

proof fn lemma_outputs_to_concat(a: Seq<OutputModel>, b: Seq<OutputModel>, p: int)
    ensures
        outputs_to(a + b, p) == outputs_to(a, p) + outputs_to(b, p),
    decreases b.len(),
{
    if b.len() == 0 {
        assert(a + b =~= a);
        assert(outputs_to(a, p) + outputs_to(b, p) =~= outputs_to(a, p));
    } else {
        assert((a + b).drop_last() =~= a + b.drop_last());
        assert((a + b).last() == b.last());
        lemma_outputs_to_concat(a, b.drop_last(), p);
        assert(outputs_to(a + b, p) =~= outputs_to(a, p) + outputs_to(b, p));
    }
}

proof fn lemma_outputs_to_addressed(q: int, data: Seq<Seq<u8>>, p: int)
    requires
        0 <= q <= usize::MAX,
    ensures
        outputs_to(addressed(q, data), p) == if q == p {
            data
        } else {
            Seq::empty()
        },
    decreases data.len(),
{
    if data.len() > 0 {
        assert(addressed(q, data).drop_last() =~= addressed(q, data.drop_last()));
        lemma_outputs_to_addressed(q, data.drop_last(), p);
        if q == p {
            assert(data.drop_last().push(data.last()) =~= data);
        }
    }
}

proof fn lemma_round_outputs_to(m: SyncModel, n: nat, p: int)
    requires
        n <= m.players() <= usize::MAX,
        0 <= p,
    ensures
        outputs_to(m.round_outputs(n), p) == if p < n {
            batches(m.fed_buffer(p), m.batch_len(p))
        } else {
            Seq::empty()
        },
    decreases n,
{
    if n > 0 {
        let q = n - 1;
        let last = addressed(q, batches(m.fed_buffer(q), m.batch_len(q)));
        lemma_round_outputs_to(m, q as nat, p);
        lemma_outputs_to_concat(m.round_outputs(q as nat), last, p);
        lemma_outputs_to_addressed(q, batches(m.fed_buffer(q), m.batch_len(q)), p);
        assert(outputs_to(m.round_outputs(n), p) =~= if p < n {
            batches(m.fed_buffer(p), m.batch_len(p))
        } else {
            Seq::empty()
        });
    }
}

/// Cutting a stream into batches can stop and resume at any point.
proof fn lemma_batches_resume(a: Seq<Seq<u8>>, b: Seq<Seq<u8>>, need: nat)
    requires
        need > 0,
    ensures
        batches(a + b, need) == batches(a, need) + batches(leftover(a, need) + b, need),
        leftover(a + b, need) == leftover(leftover(a, need) + b, need),
        leftover(a, need).len() < need,
    decreases a.len(),
{
    if a.len() < need {
        assert(batches(a, need) + batches(a + b, need) =~= batches(a + b, need));
    } else {
        lemma_batches_resume(a.skip(need as int), b, need);
        assert((a + b).take(need as int) =~= a.take(need as int));
        assert((a + b).skip(need as int) =~= a.skip(need as int) + b);
        assert(batches(a + b, need) =~= batches(a, need) + batches(
            leftover(a, need) + b,
            need,
        ));
    }
}

proof fn lemma_flatten_first(round: Seq<Seq<u8>>, rest: Seq<Seq<Seq<u8>>>)
    ensures
        (seq![round] + rest).flatten() == round + rest.flatten(),
{
    assert((seq![round] + rest).drop_first() =~= rest);
}

pub proof fn lemma_flatten_concat(a: Seq<Seq<Seq<u8>>>, b: Seq<Seq<Seq<u8>>>)
    ensures
        (a + b).flatten() == a.flatten() + b.flatten(),
    decreases a.len(),
{
    if a.len() == 0 {
        assert(a + b =~= b);
        assert(a.flatten() + b.flatten() =~= b.flatten());
    } else {
        assert((a + b).drop_first() =~= a.drop_first() + b);
        lemma_flatten_concat(a.drop_first(), b);
        assert((a + b).flatten() =~= a.flatten() + b.flatten());
    }
}

/// The ready rounds reach player `p` as the full batches of its buffered frames
/// followed by the frames of the rounds.
proof fn lemma_drain_batches(m: SyncModel, p: int)
    requires
        m.wf(),
        0 <= p < m.players(),
        m.batch_len(p) > 0,
        m.buffers[p].len() < m.batch_len(p),
    ensures
        outputs_to(m.drain_outputs(), p) == batches(
            m.buffers[p] + drain_rounds(m).flatten(),
            m.batch_len(p),
        ),
        m.drained().buffers[p] == leftover(
            m.buffers[p] + drain_rounds(m).flatten(),
            m.batch_len(p),
        ),
        m.drained().buffers[p].len() < m.batch_len(p),
    decreases waiting(m.inputs),
{
    let need = m.batch_len(p);
    if m.ready() {
        lemma_round_uses_input(m);
        let next = m.after_round();
        let rest = drain_rounds(next);
        lemma_batches_resume(m.fed_buffer(p), rest.flatten(), need);
        assert(next.buffers[p] == leftover(m.fed_buffer(p), need));
        lemma_drain_batches(next, p);
        lemma_outputs_to_concat(m.round_outputs(m.players()), next.drain_outputs(), p);
        lemma_round_outputs_to(m, m.players(), p);
        lemma_flatten_first(m.round(), rest);
        assert(m.buffers[p] + (m.round() + rest.flatten()) =~= m.fed_buffer(p) + rest.flatten());
    } else {
        assert(m.buffers[p] + drain_rounds(m).flatten() =~= m.buffers[p]);
    }
}

/// A game keeps its shape, its delays and no ready round.
pub proof fn lemma_run_keeps(delays: Seq<usize>, events: Seq<SyncEvent>)
    requires
        delays.len() <= usize::MAX,
        events_in_range(events, delays.len()),
    ensures
        run(delays, events).wf(),
        run(delays, events).delays == delays,
        !run(delays, events).ready(),
        forall|p: int|
            0 <= p < delays.len() ==> #[trigger] run(delays, events).dropped[p] == was_dropped(
                events,
                p,
            ),
    decreases events.len(),
{
    if events.len() > 0 {
        let past = events.drop_last();
        assert forall|i: int| 0 <= i < past.len() implies 0 <= #[trigger] event_player(past[i])
            < delays.len() by {
            assert(past[i] == events[i]);
        }
        lemma_run_keeps(delays, past);
        let m = run(delays, past);
        let last = events.len() - 1;
        assert(0 <= event_player(events[last]) < delays.len());
        match events[last] {
            SyncEvent::Input(p, input) => {
                lemma_drained_keeps(m.with_input(p, input));
            },
            SyncEvent::Drop(p) => {
                lemma_drained_keeps(m.with_dropped(p));
            },
        }
        assert forall|p: int| 0 <= p < delays.len() implies #[trigger] run(
            delays,
            events,
        ).dropped[p] == was_dropped(events, p) by {
            assert(m.dropped[p] == was_dropped(past, p));
            if was_dropped(past, p) {
                let i = choose|i: int| 0 <= i < past.len() && #[trigger] past[i] == SyncEvent::Drop(p);
                assert(events[i] == SyncEvent::Drop(p));
            }
            if was_dropped(events, p) {
                let i = choose|i: int|
                    0 <= i < events.len() && #[trigger] events[i] == SyncEvent::Drop(p);
                if i < last {
                    assert(past[i] == SyncEvent::Drop(p));
                }
            }
        }
    }
}

/// Lockstep. The rounds of a game are one stream of frames, the same for every
/// player: what player `p` is sent, over the whole game, is that stream cut into
/// batches of its delay, and what waits for it is the rest of the stream.
pub proof fn law_every_player_is_sent_the_same_rounds(
    delays: Seq<usize>,
    events: Seq<SyncEvent>,
    p: int,
)
    requires
        delays.len() <= usize::MAX,
        events_in_range(events, delays.len()),
        0 <= p < delays.len(),
        delays[p] > 0,
    ensures
        ({
            let m = run(delays, events);
            let stream = run_rounds(delays, events).flatten();
            &&& outputs_to(run_outputs(delays, events), p) == batches(stream, m.batch_len(p))
            &&& m.buffers[p] == leftover(stream, m.batch_len(p))
            &&& m.buffers[p].len() < m.batch_len(p)
        }),
    decreases events.len(),
{
    let need = SyncModel::initial(delays).batch_len(p);
    assert(need > 0) by (nonlinear_arith)
        requires
            need == delays[p] * delays.len(),
            delays[p] > 0,
            delays.len() > 0,
    ;
    lemma_run_keeps(delays, events);
    if events.len() > 0 {
        let past = events.drop_last();
        assert forall|i: int| 0 <= i < past.len() implies 0 <= #[trigger] event_player(past[i])
            < delays.len() by {
            assert(past[i] == events[i]);
        }
        lemma_run_keeps(delays, past);
        law_every_player_is_sent_the_same_rounds(delays, past, p);
        let m = run(delays, past);
        let last = events[events.len() - 1];
        let old_stream = run_rounds(delays, past).flatten();
        let new_rounds = step_rounds(m, last);
        assert(0 <= event_player(events[events.len() - 1]) < delays.len());
        lemma_flatten_concat(run_rounds(delays, past), new_rounds);
        lemma_outputs_to_concat(run_outputs(delays, past), step_outputs(m, last), p);
        lemma_batches_resume(old_stream, new_rounds.flatten(), need);
        match last {
            SyncEvent::Input(q, input) => {
                if m.dropped[q] {
                    assert(old_stream + new_rounds.flatten() =~= old_stream);
                    assert(outputs_to(run_outputs(delays, events), p) =~= outputs_to(
                        run_outputs(delays, past),
                        p,
                    ));
                } else {
                    lemma_drain_batches(m.with_input(q, input), p);
                }
            },
            SyncEvent::Drop(q) => {
                lemma_drain_batches(m.with_dropped(q), p);
            },
        }
    } else {
        assert(SyncModel::initial(delays).buffers[p] =~= Seq::empty());
    }
}

/// The frame size is known as soon as a frame waits.
pub open spec fn size_known(m: SyncModel) -> bool {
    (exists|q: int| 0 <= q < m.players() && #[trigger] m.inputs[q].len() > 0)
        ==> m.game_data_size > 0
}

/// Zero frames that the ready rounds hold for player `p`.
spec fn drain_fills(m: SyncModel, p: int) -> int {
    column(drain_rounds(m), p).len() + m.drained().inputs[p].len() - m.inputs[p].len()
}

/// The ready rounds take player `p`'s frames in order, and fill up with zero
/// frames only for a dropped player without frames.
proof fn lemma_drain_column(m: SyncModel, p: int)
    requires
        m.wf(),
        0 <= p < m.players(),
    ensures
        drain_fills(m, p) >= 0,
        column(drain_rounds(m), p) + m.drained().inputs[p] == m.inputs[p] + zero_frames(
            drain_fills(m, p) as nat,
            m.game_data_size as nat,
        ),
        drain_fills(m, p) > 0 ==> m.dropped[p] && m.drained().inputs[p].len() == 0 && m.ready(),
        size_known(m) ==> size_known(m.drained()),
    decreases waiting(m.inputs),
{
    let g = m.game_data_size as nat;
    let cols = column(drain_rounds(m), p);
    if m.ready() {
        lemma_round_uses_input(m);
        let next = m.after_round();
        lemma_drain_column(next, p);
        let rest = column(drain_rounds(next), p);
        let k = drain_fills(next, p) as nat;
        assert(cols =~= seq![m.round()[p]] + rest);
        assert(m.has_frame_or_dropped(p));
        assert(rest + next.drained().inputs[p] == next.inputs[p] + zero_frames(k, g));
        if m.inputs[p].len() > 0 {
            assert(seq![m.inputs[p][0]] + next.inputs[p] =~= m.inputs[p]);
            assert(cols + m.drained().inputs[p] =~= seq![m.inputs[p][0]] + (rest
                + next.drained().inputs[p]));
            assert(cols + m.drained().inputs[p] =~= m.inputs[p] + zero_frames(k, g));
        } else {
            assert(next.inputs[p] + zero_frames(k, g) =~= zero_frames(k, g));
            assert((rest + next.drained().inputs[p]).len() == k);
            assert(cols + m.drained().inputs[p] =~= seq![zeros(g)] + (rest
                + next.drained().inputs[p]));
            assert(seq![zeros(g)] + zero_frames(k, g) =~= zero_frames(k + 1, g));
            assert(m.inputs[p] + zero_frames(k + 1, g) =~= zero_frames(k + 1, g));
            if k == 0 {
                assert(next.drained().inputs[p].len() == 0);
            }
        }
        let some = choose|q: int| 0 <= q < m.players() && #[trigger] m.inputs[q].len() > 0;
        assert(size_known(m) ==> m.game_data_size > 0);
        assert(size_known(m) ==> size_known(next));
    } else {
        assert(cols + m.inputs[p] =~= m.inputs[p] + zero_frames(0, g));
    }
}

/// Zero frames that the rounds of a game hold for player `p`.
pub open spec fn run_fills(delays: Seq<usize>, events: Seq<SyncEvent>, p: int) -> int {
    run_rounds(delays, events).len() + run(delays, events).inputs[p].len() - sent_frames(
        delays,
        events,
        p,
    ).len()
}

proof fn lemma_column_concat(a: Seq<Seq<Seq<u8>>>, b: Seq<Seq<Seq<u8>>>, p: int)
    ensures
        column(a + b, p) == column(a, p) + column(b, p),
{
    assert(column(a + b, p) =~= column(a, p) + column(b, p));
}

proof fn lemma_fills_concat(a: nat, b: nat, g: nat)
    ensures
        zero_frames(a, g) + zero_frames(b, g) == zero_frames(a + b, g),
{
    assert(zero_frames(a, g) + zero_frames(b, g) =~= zero_frames(a + b, g));
}

/// The inputs of these events are no longer than a buffer can be.
pub open spec fn inputs_fit(events: Seq<SyncEvent>) -> bool {
    forall|i: int| 0 <= i < events.len() ==> #[trigger] input_len(events[i]) <= usize::MAX
}

/// Number of bytes an event carries.
pub open spec fn input_len(event: SyncEvent) -> nat {
    match event {
        SyncEvent::Input(_, input) => input.len(),
        SyncEvent::Drop(_) => 0,
    }
}

proof fn lemma_input_size_known(m: SyncModel, q: int, input: Seq<u8>)
    requires
        m.wf(),
        0 <= q < m.players(),
        size_known(m),
        input.len() <= usize::MAX,
    ensures
        size_known(m.with_input(q, input)),
        m.game_data_size > 0 ==> m.with_input(q, input).game_data_size == m.game_data_size,
{
    let size = m.chunk_size(q, input);
    if size > 0 {
        assert(size <= input.len()) by (nonlinear_arith)
            requires
                m.delays[q] > 0,
                size == input.len() as int / m.delays[q] as int,
        ;
    }
}

proof fn lemma_drop_size_known(m: SyncModel, q: int)
    requires
        size_known(m),
    ensures
        size_known(m.with_dropped(q)),
{
    let marked = m.with_dropped(q);
    if exists|i: int| 0 <= i < marked.players() && #[trigger] marked.inputs[i].len() > 0 {
        let i = choose|i: int| 0 <= i < marked.players() && #[trigger] marked.inputs[i].len() > 0;
        assert(m.inputs[i].len() > 0);
    }
}

/// The rounds before a step and the rounds of the step together keep the order.
proof fn lemma_columns_join(
    old_col: Seq<Seq<u8>>,
    old_queue: Seq<Seq<u8>>,
    old_sent: Seq<Seq<u8>>,
    old_fills: nat,
    more: Seq<Seq<u8>>,
    new_col: Seq<Seq<u8>>,
    new_queue: Seq<Seq<u8>>,
    new_fills: nat,
    g: nat,
)
    requires
        old_col + old_queue == old_sent + zero_frames(old_fills, g),
        new_col + new_queue == (old_queue + more) + zero_frames(new_fills, g),
        more.len() == 0 || old_fills == 0,
    ensures
        (old_col + new_col) + new_queue == (old_sent + more) + zero_frames(
            old_fills + new_fills,
            g,
        ),
        (old_col.len() + new_col.len()) + new_queue.len() - (old_sent.len() + more.len())
            == old_fills + new_fills,
{
    lemma_fills_concat(old_fills, new_fills, g);
    let left = (old_col + new_col) + new_queue;
    assert(left =~= old_col + (new_col + new_queue));
    assert(left =~= (old_col + old_queue) + more + zero_frames(new_fills, g));
    if more.len() == 0 {
        assert(more =~= Seq::empty());
        assert(left =~= old_sent + (zero_frames(old_fills, g) + zero_frames(new_fills, g)));
        assert(old_sent + more =~= old_sent);
    } else {
        assert(old_sent + zero_frames(0, g) =~= old_sent);
        assert(left =~= (old_sent + more) + zero_frames(new_fills, g));
    }
    assert(left.len() == old_col.len() + new_col.len() + new_queue.len());
}

/// The frames that the last event adds to player `p`'s queue.
spec fn new_frames(delays: Seq<usize>, events: Seq<SyncEvent>, p: int) -> Seq<Seq<u8>> {
    match events.last() {
        SyncEvent::Input(q, input) => {
            let size = SyncModel::initial(delays).chunk_size(p, input);
            if q == p && !was_dropped(events.drop_last(), p) && size > 0 {
                chunks(input, size)
            } else {
                Seq::empty()
            }
        },
        SyncEvent::Drop(_) => Seq::empty(),
    }
}

/// Order. The rounds of a game hold player `p`'s frames in the order it sent
/// them, none lost and none repeated, and the frames not yet played wait in its
/// queue. Only once the player is dropped and its frames are used up do the
/// rounds hold zero frames in its place.
pub proof fn law_rounds_hold_the_frames_in_order(
    delays: Seq<usize>,
    events: Seq<SyncEvent>,
    p: int,
)
    requires
        delays.len() <= usize::MAX,
        events_in_range(events, delays.len()),
        inputs_fit(events),
        0 <= p < delays.len(),
    ensures
        run_fills(delays, events, p) >= 0,
        column(run_rounds(delays, events), p) + run(delays, events).inputs[p] == sent_frames(
            delays,
            events,
            p,
        ) + zero_frames(
            run_fills(delays, events, p) as nat,
            run(delays, events).game_data_size as nat,
        ),
        run_fills(delays, events, p) > 0 ==> {
            &&& was_dropped(events, p)
            &&& run(delays, events).inputs[p].len() == 0
            &&& run(delays, events).game_data_size > 0
        },
        size_known(run(delays, events)),
    decreases events.len(),
{
    let end = run(delays, events);
    if events.len() == 0 {
        assert(column(run_rounds(delays, events), p) + end.inputs[p] =~= sent_frames(
            delays,
            events,
            p,
        ) + zero_frames(0, end.game_data_size as nat));
    } else {
        let past = events.drop_last();
        assert forall|i: int| 0 <= i < past.len() implies 0 <= #[trigger] event_player(past[i])
            < delays.len() by {
            assert(past[i] == events[i]);
        }
        assert forall|i: int| 0 <= i < past.len() implies #[trigger] input_len(past[i])
            <= usize::MAX by {
            assert(past[i] == events[i]);
        }
        lemma_run_keeps(delays, past);
        lemma_run_keeps(delays, events);
        law_rounds_hold_the_frames_in_order(delays, past, p);
        let m = run(delays, past);
        let last = events[events.len() - 1];
        assert(0 <= event_player(last) < delays.len());
        assert(input_len(last) <= usize::MAX);
        assert(m.dropped[p] == was_dropped(past, p));
        assert(end.dropped[p] == was_dropped(events, p));
        if was_dropped(past, p) {
            let i = choose|i: int| 0 <= i < past.len() && #[trigger] past[i] == SyncEvent::Drop(p);
            assert(events[i] == SyncEvent::Drop(p));
        }
        let more = new_frames(delays, events, p);
        let old_sent = sent_frames(delays, past, p);
        assert(sent_frames(delays, events, p) =~= old_sent + more);
        let new_rounds = step_rounds(m, last);
        lemma_column_concat(run_rounds(delays, past), new_rounds, p);
        match last {
            SyncEvent::Input(q, input) => {
                if m.dropped[q] {
                    assert(run_rounds(delays, events) =~= run_rounds(delays, past));
                    assert(more =~= Seq::empty());
                } else {
                    let fed = m.with_input(q, input);
                    lemma_input_size_known(m, q, input);
                    lemma_drained_keeps(fed);
                    assert(fed.inputs[p] =~= m.inputs[p] + more);
                    lemma_step_in_order(delays, events, p, fed);
                }
            },
            SyncEvent::Drop(q) => {
                let fed = m.with_dropped(q);
                lemma_drop_size_known(m, q);
                lemma_drained_keeps(fed);
                assert(fed.inputs[p] =~= m.inputs[p] + more);
                lemma_step_in_order(delays, events, p, fed);
            },
        }
    }
}

/// One step of the order law, from the combiner that is about to be drained.
proof fn lemma_step_in_order(delays: Seq<usize>, events: Seq<SyncEvent>, p: int, fed: SyncModel)
    requires
        events.len() > 0,
        0 <= p < delays.len(),
        fed.wf(),
        fed.players() == delays.len(),
        ({
            let past = events.drop_last();
            let m = run(delays, past);
            &&& run(delays, events) == fed.drained()
            &&& run_rounds(delays, events) == run_rounds(delays, past) + drain_rounds(fed)
            &&& fed.inputs[p] == m.inputs[p] + new_frames(delays, events, p)
            &&& sent_frames(delays, events, p) == sent_frames(delays, past, p) + new_frames(
                delays,
                events,
                p,
            )
            &&& m.game_data_size > 0 ==> fed.game_data_size == m.game_data_size
            &&& size_known(fed)
            &&& fed.dropped[p] == was_dropped(events, p)
            &&& was_dropped(past, p) ==> was_dropped(events, p)
            &&& new_frames(delays, events, p).len() > 0 ==> !was_dropped(past, p)
            &&& run_fills(delays, past, p) >= 0
            &&& column(run_rounds(delays, past), p) + m.inputs[p] == sent_frames(delays, past, p)
                + zero_frames(run_fills(delays, past, p) as nat, m.game_data_size as nat)
            &&& run_fills(delays, past, p) > 0 ==> {
                &&& was_dropped(past, p)
                &&& m.inputs[p].len() == 0
                &&& m.game_data_size > 0
            }
        }),
    ensures
        run_fills(delays, events, p) >= 0,
        column(run_rounds(delays, events), p) + run(delays, events).inputs[p] == sent_frames(
            delays,
            events,
            p,
        ) + zero_frames(
            run_fills(delays, events, p) as nat,
            run(delays, events).game_data_size as nat,
        ),
        run_fills(delays, events, p) > 0 ==> {
            &&& was_dropped(events, p)
            &&& run(delays, events).inputs[p].len() == 0
            &&& run(delays, events).game_data_size > 0
        },
        size_known(run(delays, events)),
{
    let past = events.drop_last();
    let m = run(delays, past);
    let g = fed.game_data_size as nat;
    let old_fills = run_fills(delays, past, p) as nat;
    let more = new_frames(delays, events, p);
    let new_rounds = drain_rounds(fed);
    lemma_drain_column(fed, p);
    lemma_drained_keeps(fed);
    let k = drain_fills(fed, p) as nat;
    if k > 0 {
        let q = choose|q: int| 0 <= q < fed.players() && #[trigger] fed.inputs[q].len() > 0;
        assert(fed.inputs[q].len() > 0);
        assert(g > 0);
    }
    lemma_column_concat(run_rounds(delays, past), new_rounds, p);
    assert(zero_frames(old_fills, m.game_data_size as nat) =~= zero_frames(old_fills, g));
    lemma_columns_join(
        column(run_rounds(delays, past), p),
        m.inputs[p],
        sent_frames(delays, past, p),
        old_fills,
        more,
        column(new_rounds, p),
        fed.drained().inputs[p],
        k,
        g,
    );
    assert(run_fills(delays, events, p) == old_fills + k);
    if old_fills > 0 && k == 0 {
        assert(more.len() == 0);
        assert(fed.inputs[p].len() == 0);
        assert((column(new_rounds, p) + fed.drained().inputs[p]).len() == 0);
    }
}

/// A player who is dropped stays dropped, whatever input comes, and a drop is no
/// drop of another player. Dropping a player again sends nothing and changes
/// nothing.
pub proof fn law_drop_is_for_good(m: SyncModel, p: int, q: int, input: Seq<u8>)
    requires
        m.wf(),
        0 <= p < m.players(),
        0 <= q < m.players(),
    ensures
        ({
            let after = m.with_dropped(p).drained();
            &&& after.dropped == m.dropped.update(p, true)
            &&& after.after_input(q, input).dropped == after.dropped
            &&& after.with_dropped(p).drained() == after
            &&& after.with_dropped(p).drain_outputs() == Seq::<OutputModel>::empty()
        }),
{
    lemma_drained_keeps(m.with_dropped(p));
    let after = m.with_dropped(p).drained();
    assert(after.with_dropped(p) =~= after);
    lemma_drained_keeps(after.with_input(q, input));
}

} // verus!
