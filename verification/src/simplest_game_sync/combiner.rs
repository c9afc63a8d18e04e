//! The lockstep combiner: one frame of every player makes a round, and every
//! player receives the rounds in batches as long as its delay.

use std::collections::VecDeque;
use vstd::prelude::*;
use crate::bytes_util::{append_bytes, copy_bytes, copy_range, zero_bytes};
#[allow(unused_imports)]
use crate::bytes_util::zeros;
use super::types::{GameSyncError, PlayerOutput};
#[allow(unused_imports)]
use super::types::{outputs_view, OutputModel};

verus! {

/// The views of a queue of frames.
pub open spec fn frames_view(frames: Seq<Vec<u8>>) -> Seq<Seq<u8>> {
    frames.map_values(|f: Vec<u8>| f@)
}

/// The views of a list of queues of frames.
pub open spec fn queues_view(queues: Seq<VecDeque<Vec<u8>>>) -> Seq<Seq<Seq<u8>>> {
    queues.map_values(|q: VecDeque<Vec<u8>>| frames_view(q@))
}

/// Adding a frame to a queue adds its view.
pub proof fn lemma_frames_push(frames: Seq<Vec<u8>>, frame: Vec<u8>)
    ensures
        frames_view(frames.push(frame)) == frames_view(frames).push(frame@),
{
    assert(frames_view(frames.push(frame)) =~= frames_view(frames).push(frame@));
}

/// Taking the first frame off a queue takes its view off.
pub proof fn lemma_frames_pop(frames: Seq<Vec<u8>>)
    requires
        frames.len() > 0,
    ensures
        frames_view(frames)[0] == frames[0]@,
        frames_view(frames.subrange(1, frames.len() as int)) == frames_view(frames).skip(1),
{
    assert(frames_view(frames.subrange(1, frames.len() as int)) =~= frames_view(frames).skip(1));
}

/// `input` cut into pieces of `size` bytes; the last piece may be shorter.
pub open spec fn chunks(input: Seq<u8>, size: nat) -> Seq<Seq<u8>>
    recommends
        size > 0,
    decreases input.len(),
{
    if input.len() == 0 || size == 0 {
        Seq::empty()
    } else if input.len() <= size {
        seq![input]
    } else {
        seq![input.take(size as int)] + chunks(input.skip(size as int), size)
    }
}

/// The full batches of `need` frames at the front of `buffer`, each joined.
pub open spec fn batches(buffer: Seq<Seq<u8>>, need: nat) -> Seq<Seq<u8>>
    decreases buffer.len(),
{
    if need == 0 || buffer.len() < need {
        Seq::empty()
    } else {
        seq![buffer.take(need as int).flatten()] + batches(buffer.skip(need as int), need)
    }
}

/// What stays in `buffer` when its full batches are taken.
pub open spec fn leftover(buffer: Seq<Seq<u8>>, need: nat) -> Seq<Seq<u8>>
    decreases buffer.len(),
{
    if need == 0 || buffer.len() < need {
        buffer
    } else {
        leftover(buffer.skip(need as int), need)
    }
}

/// Batches addressed to one player.
pub open spec fn addressed(player_id: int, data: Seq<Seq<u8>>) -> Seq<OutputModel> {
    data.map_values(|d: Seq<u8>| OutputModel { player_id: player_id as usize, output: d })
}

/// Number of frames that wait in all queues together.
pub open spec fn waiting(queues: Seq<Seq<Seq<u8>>>) -> nat
    decreases queues.len(),
{
    if queues.len() == 0 {
        0
    } else {
        waiting(queues.drop_last()) + queues.last().len()
    }
}

/// The combiner as a mathematical value.
#[verifier::ext_equal]
pub struct SyncModel {
    /// Per player, the frames that wait for a round.
    pub inputs: Seq<Seq<Seq<u8>>>,
    /// Per player, the frames of past rounds that wait for a full batch.
    pub buffers: Seq<Seq<Seq<u8>>>,
    pub delays: Seq<usize>,
    pub dropped: Seq<bool>,
    pub game_data_size: usize,
}

impl SyncModel {
    /// A combiner for players with these delays, before any input.
    pub open spec fn initial(delays: Seq<usize>) -> SyncModel {
        SyncModel {
            inputs: Seq::new(delays.len(), |i: int| Seq::<Seq<u8>>::empty()),
            buffers: Seq::new(delays.len(), |i: int| Seq::<Seq<u8>>::empty()),
            delays,
            dropped: Seq::new(delays.len(), |i: int| false),
            game_data_size: 0,
        }
    }

    pub open spec fn players(self) -> nat {
        self.delays.len()
    }

    pub open spec fn wf(self) -> bool {
        &&& self.players() <= usize::MAX
        &&& self.inputs.len() == self.players()
        &&& self.buffers.len() == self.players()
        &&& self.dropped.len() == self.players()
    }

    /// Frames in one batch of player `p`.
    pub open spec fn batch_len(self, p: int) -> nat {
        (self.delays[p] * self.players()) as nat
    }

    /// Player `p` holds no round back: it has a frame or was dropped.
    pub open spec fn has_frame_or_dropped(self, p: int) -> bool {
        self.inputs[p].len() > 0 || self.dropped[p]
    }

    /// A round can be played: no player holds it back and some frame waits.
    pub open spec fn ready(self) -> bool {
        &&& forall|p: int| 0 <= p < self.players() ==> #[trigger] self.has_frame_or_dropped(p)
        &&& exists|p: int| 0 <= p < self.players() && #[trigger] self.inputs[p].len() > 0
    }

    /// Every player has a delay, so that no batch is empty.
    pub open spec fn all_delayed(self) -> bool {
        forall|p: int| 0 <= p < self.players() ==> #[trigger] self.delays[p] > 0
    }

    /// Playing the ready rounds comes to an end: a player with delay 0 would be
    /// sent empty batches for ever.
    pub open spec fn can_drain(self) -> bool {
        self.ready() ==> self.all_delayed()
    }

    /// The frame that player `p` contributes to the next round.
    pub open spec fn next_frame(self, p: int) -> Seq<u8> {
        if self.inputs[p].len() > 0 {
            self.inputs[p][0]
        } else {
            zeros(self.game_data_size as nat)
        }
    }

    /// The next round: one frame of every player, in player order.
    pub open spec fn round(self) -> Seq<Seq<u8>> {
        Seq::new(self.players(), |p: int| self.next_frame(p))
    }

    /// Player `p`'s buffer once the next round is in it.
    pub open spec fn fed_buffer(self, p: int) -> Seq<Seq<u8>> {
        self.buffers[p] + self.round()
    }

    /// What the next round sends to the players below `n`, in player order.
    pub open spec fn round_outputs(self, n: nat) -> Seq<OutputModel>
        decreases n,
    {
        if n == 0 {
            Seq::empty()
        } else {
            let p = n - 1;
            self.round_outputs(p as nat) + addressed(
                p,
                batches(self.fed_buffer(p), self.batch_len(p)),
            )
        }
    }

    /// The combiner after the next round.
    pub open spec fn after_round(self) -> SyncModel {
        SyncModel {
            inputs: Seq::new(
                self.players(),
                |p: int|
                    if self.inputs[p].len() > 0 {
                        self.inputs[p].skip(1)
                    } else {
                        self.inputs[p]
                    },
            ),
            buffers: Seq::new(
                self.players(),
                |p: int| leftover(self.fed_buffer(p), self.batch_len(p)),
            ),
            ..self
        }
    }

    /// The combiner after every ready round.
    pub open spec fn drained(self) -> SyncModel
        decreases waiting(self.inputs),
        when self.wf()
    {
        if self.ready() {
            proof {
                lemma_round_uses_input(self);
            }
            self.after_round().drained()
        } else {
            self
        }
    }

    /// What the ready rounds send, round by round.
    pub open spec fn drain_outputs(self) -> Seq<OutputModel>
        decreases waiting(self.inputs),
        when self.wf()
    {
        if self.ready() {
            proof {
                lemma_round_uses_input(self);
            }
            self.round_outputs(self.players()) + self.after_round().drain_outputs()
        } else {
            Seq::empty()
        }
    }

    /// Bytes per frame of an input of player `p`.
    pub open spec fn chunk_size(self, p: int, input: Seq<u8>) -> nat {
        if self.delays[p] > 0 {
            (input.len() as int / self.delays[p] as int) as nat
        } else {
            0
        }
    }

    /// The combiner once an input of player `p` waits in its queue, cut into as
    /// many frames as the player's delay.
    pub open spec fn with_input(self, p: int, input: Seq<u8>) -> SyncModel {
        let size = self.chunk_size(p, input);
        if size == 0 {
            self
        } else {
            SyncModel {
                inputs: self.inputs.update(p, self.inputs[p] + chunks(input, size)),
                game_data_size: if self.game_data_size == 0 {
                    size as usize
                } else {
                    self.game_data_size
                },
                ..self
            }
        }
    }

    /// The combiner once player `p` is dropped.
    pub open spec fn with_dropped(self, p: int) -> SyncModel {
        SyncModel { dropped: self.dropped.update(p, true), ..self }
    }

    /// The combiner after an input of player `p`.
    pub open spec fn after_input(self, p: int, input: Seq<u8>) -> SyncModel {
        if self.dropped[p] {
            self
        } else {
            self.with_input(p, input).drained()
        }
    }

    /// What an input of player `p` sends.
    pub open spec fn input_outputs(self, p: int, input: Seq<u8>) -> Seq<OutputModel> {
        if self.dropped[p] {
            Seq::empty()
        } else {
            self.with_input(p, input).drain_outputs()
        }
    }
}

/// Fewer waiting frames in every queue, and strictly fewer in one, make a
/// smaller total.
proof fn lemma_waiting_shrinks(before: Seq<Seq<Seq<u8>>>, after: Seq<Seq<Seq<u8>>>)
    requires
        before.len() == after.len(),
        forall|p: int| 0 <= p < before.len() ==> #[trigger] after[p].len() <= before[p].len(),
    ensures
        waiting(after) <= waiting(before),
        (exists|p: int| 0 <= p < before.len() && #[trigger] after[p].len() < before[p].len())
            ==> waiting(after) < waiting(before),
    decreases before.len(),
{
    if before.len() > 0 {
        let n = before.len() - 1;
        assert(after[n].len() <= before[n].len());
        assert forall|p: int| 0 <= p < before.drop_last().len() implies
            #[trigger] after.drop_last()[p].len() <= before.drop_last()[p].len() by {
            assert(after[p].len() <= before[p].len());
        }
        lemma_waiting_shrinks(before.drop_last(), after.drop_last());
        if exists|p: int| 0 <= p < before.len() && #[trigger] after[p].len() < before[p].len() {
            let p = choose|p: int|
                0 <= p < before.len() && #[trigger] after[p].len() < before[p].len();
            if p < n {
                assert(after.drop_last()[p].len() < before.drop_last()[p].len());
            }
        }
    }
}

/// A ready round takes at least one waiting frame.
pub proof fn lemma_round_uses_input(m: SyncModel)
    requires
        m.wf(),
        m.ready(),
    ensures
        m.after_round().wf(),
        waiting(m.after_round().inputs) < waiting(m.inputs),
{
    let after = m.after_round().inputs;
    let p = choose|p: int| 0 <= p < m.players() && #[trigger] m.inputs[p].len() > 0;
    assert(after[p].len() < m.inputs[p].len());
    lemma_waiting_shrinks(m.inputs, after);
}

/// A round sends only to the players of the game.
proof fn lemma_round_outputs_in_range(m: SyncModel, n: nat, i: int)
    requires
        n <= m.players() <= usize::MAX,
        0 <= i < m.round_outputs(n).len(),
    ensures
        m.round_outputs(n)[i].player_id < m.players(),
    decreases n,
{
    let p = n - 1;
    if i < m.round_outputs(p as nat).len() {
        lemma_round_outputs_in_range(m, p as nat, i);
    }
}

/// Ready rounds send only to the players of the game.
pub proof fn lemma_drain_outputs_in_range(m: SyncModel)
    requires
        m.wf(),
    ensures
        forall|i: int|
            0 <= i < m.drain_outputs().len() ==> (#[trigger] m.drain_outputs()[i]).player_id
                < m.players(),
    decreases waiting(m.inputs),
{
    if m.ready() {
        lemma_round_uses_input(m);
        let first = m.round_outputs(m.players());
        let rest = m.after_round().drain_outputs();
        lemma_drain_outputs_in_range(m.after_round());
        assert forall|i: int| 0 <= i < m.drain_outputs().len() implies (
        #[trigger] m.drain_outputs()[i]).player_id < m.players() by {
            if i < first.len() {
                lemma_round_outputs_in_range(m, m.players(), i);
            } else {
                assert(m.drain_outputs()[i] == rest[i - first.len()]);
            }
        }
    }
}

/// Playing rounds keeps the shape, the delays and the drops of a combiner.
pub proof fn lemma_drained_keeps(m: SyncModel)
    requires
        m.wf(),
    ensures
        m.drained().wf(),
        m.drained().delays == m.delays,
        m.drained().dropped == m.dropped,
        m.drained().game_data_size == m.game_data_size,
        !m.drained().ready(),
    decreases waiting(m.inputs),
{
    if m.ready() {
        lemma_round_uses_input(m);
        lemma_drained_keeps(m.after_round());
    }
}

/// Lockstep frame combiner.
#[derive(Debug, Clone)]
pub struct SimplestGameSync {
    player_input: Vec<VecDeque<Vec<u8>>>,
    sender_buffer: Vec<VecDeque<Vec<u8>>>,
    player_delays: Vec<usize>,
    dropped_players: Vec<bool>,
    /// Bytes of one frame of one player, learned from the first input.
    pub game_data_size: usize,
}

impl View for SimplestGameSync {
    type V = SyncModel;

    closed spec fn view(&self) -> SyncModel {
        SyncModel {
            inputs: queues_view(self.player_input@),
            buffers: queues_view(self.sender_buffer@),
            delays: self.player_delays@,
            dropped: self.dropped_players@,
            game_data_size: self.game_data_size,
        }
    }
}

/// Takes the full batches out of a player's buffer.
fn take_batches(
    buffer: &mut VecDeque<Vec<u8>>,
    need: usize,
    player_id: usize,
    results: &mut Vec<PlayerOutput>,
)
    requires
        need > 0,
    ensures
        frames_view(final(buffer)@) == leftover(frames_view(old(buffer)@), need as nat),
        outputs_view(final(results)@) == outputs_view(old(results)@) + addressed(
            player_id as int,
            batches(frames_view(old(buffer)@), need as nat),
        ),
{
    let ghost start = frames_view(buffer@);
    let ghost earlier = outputs_view(results@);
    assert(earlier + addressed(player_id as int, Seq::empty()) =~= earlier);
    let ghost mut sent: Seq<Seq<u8>> = Seq::empty();
    while buffer.len() >= need
        invariant
            need > 0,
            leftover(frames_view(buffer@), need as nat) == leftover(start, need as nat),
            sent + batches(frames_view(buffer@), need as nat) == batches(start, need as nat),
            outputs_view(results@) == earlier + addressed(player_id as int, sent),
        decreases buffer.len(),
    {
        let ghost before = frames_view(buffer@);
        let mut output: Vec<u8> = Vec::new();
        let mut k: usize = 0;
        assert(before.skip(0) =~= before);
        while k < need
            invariant
                k <= need <= before.len(),
                frames_view(buffer@) == before.skip(k as int),
                output@ + before.subrange(k as int, need as int).flatten() == before.take(
                    need as int,
                ).flatten(),
            decreases need - k,
        {
            let ghost rest = before.subrange(k as int, need as int);
            assert(before.skip(k as int).len() > 0);
            assert(buffer@.len() == before.skip(k as int).len());
            let ghost queue = buffer@;
            match buffer.pop_front() {
                Some(frame) => {
                    proof {
                        lemma_frames_pop(queue);
                    }
                    assert(rest.first() == frame@);
                    assert(rest.drop_first() =~= before.subrange(k + 1, need as int));
                    let ghost done = output@;
                    append_bytes(&mut output, frame.as_slice());
                    assert(done + (frame@ + rest.drop_first().flatten()) =~= output@
                        + rest.drop_first().flatten());
                    assert(before.skip(k as int).skip(1) =~= before.skip(k + 1));
                },
                None => {},
            }
            k += 1;
        }
        assert(before.subrange(need as int, need as int) =~= Seq::empty());
        assert(output@ =~= before.take(need as int).flatten());
        let ghost batch = output@;
        let ghost listed = results@;
        results.push(PlayerOutput { player_id, output });
        proof {
            let next = sent.push(batch);
            assert(next + batches(before.skip(need as int), need as nat) =~= sent + (seq![batch]
                + batches(before.skip(need as int), need as nat)));
            assert(addressed(player_id as int, next) =~= addressed(player_id as int, sent).push(
                OutputModel { player_id, output: batch },
            ));
            assert(outputs_view(results@) =~= outputs_view(listed).push(
                OutputModel { player_id, output: batch },
            ));
            sent = next;
        }
    }
    assert(sent + Seq::<Seq<u8>>::empty() =~= sent);
}

impl SimplestGameSync {
    pub open spec fn wf(&self) -> bool {
        self@.wf()
    }

    /// A combiner for players with these delays.
    pub fn new(player_delays: Vec<usize>) -> (sync: Self)
        ensures
            sync.wf(),
            sync@ == SyncModel::initial(player_delays@),
    {
        let player_count: usize = player_delays.len();
        let mut player_input: Vec<VecDeque<Vec<u8>>> = Vec::new();
        let mut sender_buffer: Vec<VecDeque<Vec<u8>>> = Vec::new();
        let mut i: usize = 0;
        while i < player_count
            invariant
                i <= player_count,
                player_input@.len() == i,
                sender_buffer@.len() == i,
                forall|j: int| 0 <= j < i ==> (#[trigger] player_input@[j])@.len() == 0,
                forall|j: int| 0 <= j < i ==> (#[trigger] sender_buffer@[j])@.len() == 0,
            decreases player_count - i,
        {
            player_input.push(VecDeque::new());
            sender_buffer.push(VecDeque::new());
            i += 1;
        }
        let sync = Self {
            player_input,
            sender_buffer,
            player_delays,
            dropped_players: vec![false; player_count],
            game_data_size: 0,
        };
        proof {
            let m = SyncModel::initial(player_delays@);
            assert forall|j: int| 0 <= j < player_count implies sync@.inputs[j] == m.inputs[j] by {
                assert(player_input@[j]@.len() == 0);
                assert(frames_view(player_input@[j]@) =~= Seq::<Seq<u8>>::empty());
            }
            assert forall|j: int| 0 <= j < player_count implies sync@.buffers[j]
                == m.buffers[j] by {
                assert(sender_buffer@[j]@.len() == 0);
                assert(frames_view(sender_buffer@[j]@) =~= Seq::<Seq<u8>>::empty());
            }
            assert(sync@.inputs =~= m.inputs);
            assert(sync@.buffers =~= m.buffers);
            assert(sync@.dropped =~= m.dropped);
        }
        sync
    }

    /// Whether a round can be played.
    fn round_ready(&self) -> (ready: bool)
        requires
            self.wf(),
        ensures
            ready == self@.ready(),
    {
        let mut any: bool = false;
        let mut i: usize = 0;
        while i < self.player_input.len()
            invariant
                self.wf(),
                i <= self.player_input.len(),
                forall|p: int| 0 <= p < i ==> #[trigger] self@.has_frame_or_dropped(p),
                any == (exists|p: int| 0 <= p < i && #[trigger] self@.inputs[p].len() > 0),
            decreases self.player_input.len() - i,
        {
            let queued: usize = self.player_input[i].len();
            assert(self@.inputs[i as int].len() == queued);
            if queued > 0 {
                any = true;
            } else if !self.dropped_players[i] {
                assert(!self@.has_frame_or_dropped(i as int));
                return false;
            }
            assert(self@.has_frame_or_dropped(i as int));
            i += 1;
        }
        any
    }

    /// Takes one frame of every player off the queues.
    fn take_round(&mut self) -> (round: Vec<Vec<u8>>)
        requires
            old(self).wf(),
            old(self)@.ready(),
        ensures
            final(self).wf(),
            frames_view(round@) == old(self)@.round(),
            final(self)@ == (SyncModel {
                inputs: old(self)@.after_round().inputs,
                ..old(self)@
            }),
    {
        let ghost before = self@;
        let ghost target = self@.after_round().inputs;
        let mut round: Vec<Vec<u8>> = Vec::new();
        let mut i: usize = 0;
        while i < self.player_input.len()
            invariant
                before.wf(),
                before.ready(),
                target == before.after_round().inputs,
                self@.inputs.len() == before.players(),
                i <= self.player_input@.len() == before.players(),
                round@.len() == i,
                forall|p: int| 0 <= p < i ==> (#[trigger] round@[p])@ == before.next_frame(p),
                forall|p: int| 0 <= p < i ==> #[trigger] self@.inputs[p] == target[p],
                forall|p: int|
                    i <= p < before.players() ==> #[trigger] self@.inputs[p] == before.inputs[p],
                self@ == (SyncModel { inputs: self@.inputs, ..before }),
            decreases self.player_input.len() - i,
        {
            assert(before.has_frame_or_dropped(i as int));
            assert(self@.inputs[i as int] == before.inputs[i as int]);
            let ghost now = self@;
            let ghost queue = self.player_input@[i as int]@;
            assert(frames_view(queue) == before.inputs[i as int]);
            match self.player_input[i].pop_front() {
                Some(frame) => {
                    assert(frame@ == frames_view(queue)[0]);
                    round.push(frame);
                },
                None => {
                    round.push(zero_bytes(self.game_data_size));
                },
            }
            assert(frames_view(self.player_input@[i as int]@) =~= target[i as int]);
            assert(self@.inputs =~= now.inputs.update(i as int, target[i as int]));
            i += 1;
        }
        assert(frames_view(round@) =~= before.round());
        assert(self@.inputs =~= target);
        round
    }

    /// Plays one round and adds what it sends to `results`.
    fn play_round(&mut self, results: &mut Vec<PlayerOutput>)
        requires
            old(self).wf(),
            old(self)@.ready(),
            old(self)@.all_delayed(),
        ensures
            final(self).wf(),
            final(self)@ == old(self)@.after_round(),
            outputs_view(final(results)@) == outputs_view(old(results)@)
                + old(self)@.round_outputs(old(self)@.players()),
    {
        let ghost before = self@;
        let ghost earlier = outputs_view(results@);
        let round: Vec<Vec<u8>> = self.take_round();
        let ghost inputs = self@.inputs;
        let players: usize = self.player_delays.len();
        let mut pid: usize = 0;
        assert(earlier + before.round_outputs(0) =~= earlier);
        while pid < self.sender_buffer.len()
            invariant
                before.wf(),
                before.all_delayed(),
                inputs == before.after_round().inputs,
                players == before.players(),
                frames_view(round@) == before.round(),
                pid <= self.sender_buffer@.len() == before.players(),
                self@.buffers.len() == before.players(),
                forall|p: int|
                    0 <= p < pid ==> #[trigger] self@.buffers[p]
                        == before.after_round().buffers[p],
                forall|p: int|
                    pid <= p < before.players() ==> #[trigger] self@.buffers[p]
                        == before.buffers[p],
                self@ == (SyncModel { inputs, buffers: self@.buffers, ..before }),
                outputs_view(results@) == earlier + before.round_outputs(pid as nat),
            decreases self.sender_buffer.len() - pid,
        {
            let ghost now = self@;
            assert(self@.buffers[pid as int] == before.buffers[pid as int]);
            let mut k: usize = 0;
            while k < round.len()
                invariant
                    pid < self.sender_buffer@.len() == before.players(),
                    before.wf(),
                    k <= round.len(),
                    frames_view(round@) == before.round(),
                    now == (SyncModel { inputs, buffers: now.buffers, ..before }),
                    now.buffers.len() == before.players(),
                    self@ == (SyncModel {
                        buffers: now.buffers.update(
                            pid as int,
                            before.buffers[pid as int] + before.round().take(k as int),
                        ),
                        ..now
                    }),
                decreases round.len() - k,
            {
                let ghost buffer = self.sender_buffer@[pid as int]@;
                let ghost all = self@.buffers;
                assert(self@.buffers[pid as int] == before.buffers[pid as int]
                    + before.round().take(k as int));
                assert(round@[k as int]@ == before.round()[k as int]);
                let frame: Vec<u8> = copy_bytes(round[k].as_slice());
                proof {
                    lemma_frames_push(buffer, frame);
                }
                self.sender_buffer[pid].push_back(frame);
                assert((before.buffers[pid as int] + before.round().take(k as int)).push(frame@)
                    =~= before.buffers[pid as int] + before.round().take(k + 1));
                k += 1;
                assert(frames_view(self.sender_buffer@[pid as int]@) == before.buffers[pid as int]
                    + before.round().take(k as int));
                assert(self@.buffers =~= all.update(
                    pid as int,
                    before.buffers[pid as int] + before.round().take(k as int),
                ));
                assert(self@.buffers =~= now.buffers.update(
                    pid as int,
                    before.buffers[pid as int] + before.round().take(k as int),
                ));
            }
            assert(before.round().take(k as int) =~= before.round());
            assert(self@.buffers[pid as int] == before.fed_buffer(pid as int));
            assert(before.delays[pid as int] > 0);
            assert(self.player_delays@[pid as int] == before.delays[pid as int]);
            let ghost fed = self@;
            match self.player_delays[pid].checked_mul(players) {
                Some(need) => {
                    assert(need > 0) by (nonlinear_arith)
                        requires
                            need == self.player_delays@[pid as int] * players,
                            self.player_delays@[pid as int] > 0,
                            players > 0,
                    ;
                    take_batches(&mut self.sender_buffer[pid], need, pid, results);
                },
                None => {
                    let held: usize = self.sender_buffer[pid].len();
                    assert(before.fed_buffer(pid as int).len() == held);
                    assert(before.batch_len(pid as int) > held);
                    assert(outputs_view(results@) + Seq::<OutputModel>::empty() =~= outputs_view(
                        results@,
                    ));
                    assert(addressed(pid as int, Seq::empty()) =~= Seq::<OutputModel>::empty());
                },
            }
            assert(self@.buffers =~= fed.buffers.update(
                pid as int,
                before.after_round().buffers[pid as int],
            ));
            assert(earlier + before.round_outputs(pid as nat) + addressed(
                pid as int,
                batches(before.fed_buffer(pid as int), before.batch_len(pid as int)),
            ) =~= earlier + before.round_outputs((pid + 1) as nat));
            pid += 1;
        }
        assert(self@.buffers =~= before.after_round().buffers);
    }

    /// Plays every ready round: no player holds one back and some frame waits.
    /// A drop can make rounds ready, so this needs no new input.
    pub fn drain_ready_inputs(&mut self) -> (result: Result<Vec<PlayerOutput>, GameSyncError>)
        requires
            old(self).wf(),
            old(self)@.can_drain(),
        ensures
            final(self).wf(),
            final(self)@ == old(self)@.drained(),
            result matches Ok(outputs) && outputs_view(outputs@) == old(self)@.drain_outputs(),
    {
        let ghost before = self@;
        let mut results: Vec<PlayerOutput> = Vec::new();
        assert(outputs_view(results@) + before.drain_outputs() =~= before.drain_outputs());
        while self.round_ready()
            invariant
                self.wf(),
                self@.can_drain(),
                self@.drained() == before.drained(),
                outputs_view(results@) + self@.drain_outputs() == before.drain_outputs(),
            decreases waiting(self@.inputs),
        {
            let ghost now = self@;
            let ghost listed = outputs_view(results@);
            proof {
                lemma_round_uses_input(now);
            }
            self.play_round(&mut results);
            assert(listed + (now.round_outputs(now.players()) + now.after_round().drain_outputs())
                =~= listed + now.round_outputs(now.players()) + now.after_round().drain_outputs());
        }
        assert(outputs_view(results@) + Seq::<OutputModel>::empty() =~= outputs_view(results@));
        Ok(results)
    }

    /// Puts an input of player `p` into its queue, cut into frames.
    fn queue_input(&mut self, p: usize, input: &[u8])
        requires
            old(self).wf(),
            p < old(self)@.players(),
        ensures
            final(self).wf(),
            final(self)@ == old(self)@.with_input(p as int, input@),
    {
        let ghost before = self@;
        let delay: usize = self.player_delays[p];
        if delay == 0 {
            return;
        }
        let size: usize = input.len() / delay;
        if size == 0 {
            return;
        }
        if self.game_data_size == 0 {
            self.game_data_size = size;
        }
        let ghost sized = self@;
        let ghost mut cut: Seq<Seq<u8>> = Seq::empty();
        let mut pos: usize = 0;
        assert(input@.skip(0) =~= input@);
        assert(self@.inputs =~= before.inputs.update(p as int, before.inputs[p as int] + cut));
        while pos < input.len()
            invariant
                size > 0,
                pos <= input.len(),
                p < before.players(),
                before.wf(),
                sized.inputs == before.inputs,
                self.player_input@.len() == before.players(),
                cut + chunks(input@.skip(pos as int), size as nat) == chunks(input@, size as nat),
                self@ == (SyncModel {
                    inputs: before.inputs.update(p as int, before.inputs[p as int] + cut),
                    ..sized
                }),
            decreases input.len() - pos,
        {
            let end: usize = if input.len() - pos <= size {
                input.len()
            } else {
                pos + size
            };
            let ghost rest = input@.skip(pos as int);
            let frame: Vec<u8> = copy_range(input, pos, end);
            let ghost piece = frame@;
            let ghost queue = self.player_input@[p as int]@;
            let ghost all = self@.inputs;
            assert(all[p as int] == before.inputs[p as int] + cut);
            proof {
                lemma_frames_push(queue, frame);
                if rest.len() <= size {
                    assert(piece =~= rest);
                    assert(input@.skip(end as int) =~= Seq::empty());
                    assert(chunks(rest, size as nat) == seq![piece]);
                } else {
                    assert(piece =~= rest.take(size as int));
                    assert(input@.skip(end as int) =~= rest.skip(size as int));
                }
                assert(chunks(rest, size as nat) =~= seq![piece] + chunks(
                    input@.skip(end as int),
                    size as nat,
                ));
                assert(cut.push(piece) + chunks(input@.skip(end as int), size as nat) =~= cut
                    + chunks(rest, size as nat));
                assert((before.inputs[p as int] + cut).push(piece) =~= before.inputs[p as int]
                    + cut.push(piece));
                cut = cut.push(piece);
            }
            self.player_input[p].push_back(frame);
            assert(self@.inputs =~= all.update(p as int, before.inputs[p as int] + cut));
            assert(self@.inputs =~= before.inputs.update(
                p as int,
                before.inputs[p as int] + cut,
            ));
            pos = end;
        }
        assert(input@.skip(pos as int) =~= Seq::empty());
        assert(cut + Seq::<Seq<u8>>::empty() =~= cut);
    }

    /// Takes an input of a player and plays every round it makes ready. A
    /// dropped player's input is ignored.
    pub fn process_client_input(&mut self, player_id: usize, input: Vec<u8>) -> (result: Result<
        Vec<PlayerOutput>,
        GameSyncError,
    >)
        requires
            old(self).wf(),
            player_id < old(self)@.players() && !old(self)@.dropped[player_id as int]
                ==> old(self)@.with_input(player_id as int, input@).can_drain(),
        ensures
            final(self).wf(),
            player_id >= old(self)@.players() ==> {
                &&& final(self)@ == old(self)@
                &&& result == Err::<Vec<PlayerOutput>, GameSyncError>(
                    GameSyncError::InvalidPlayerId {
                        player_id,
                        player_count: old(self)@.players() as usize,
                    },
                )
            },
            player_id < old(self)@.players() ==> {
                &&& final(self)@ == old(self)@.after_input(player_id as int, input@)
                &&& result matches Ok(outputs) && outputs_view(outputs@)
                    == old(self)@.input_outputs(player_id as int, input@)
            },
    {
        if player_id >= self.player_input.len() {
            return Err(
                GameSyncError::InvalidPlayerId {
                    player_id,
                    player_count: self.player_input.len(),
                },
            );
        }
        if self.dropped_players[player_id] {
            let none: Vec<PlayerOutput> = Vec::new();
            assert(outputs_view(none@) =~= Seq::<OutputModel>::empty());
            return Ok(none);
        }
        self.queue_input(player_id, input.as_slice());
        self.drain_ready_inputs()
    }

    /// Per-player delays.
    pub fn player_delays(&self) -> (delays: &[usize])
        ensures
            delays@ == self@.delays,
    {
        self.player_delays.as_slice()
    }

    /// Marks a player as dropped and plays the rounds that it held back.
    pub fn mark_player_dropped(&mut self, player_id: usize) -> (result: Result<
        Vec<PlayerOutput>,
        GameSyncError,
    >)
        requires
            old(self).wf(),
            player_id < old(self)@.players() ==> old(self)@.with_dropped(
                player_id as int,
            ).can_drain(),
        ensures
            final(self).wf(),
            player_id >= old(self)@.players() ==> {
                &&& final(self)@ == old(self)@
                &&& result == Err::<Vec<PlayerOutput>, GameSyncError>(
                    GameSyncError::InvalidPlayerId {
                        player_id,
                        player_count: old(self)@.players() as usize,
                    },
                )
            },
            player_id < old(self)@.players() ==> {
                let marked = old(self)@.with_dropped(player_id as int);
                &&& final(self)@ == marked.drained()
                &&& result matches Ok(outputs) && outputs_view(outputs@) == marked.drain_outputs()
            },
    {
        if player_id >= self.dropped_players.len() {
            return Err(
                GameSyncError::InvalidPlayerId {
                    player_id,
                    player_count: self.dropped_players.len(),
                },
            );
        }
        let ghost before = self@;
        self.dropped_players.set(player_id, true);
        assert(self@ =~= before.with_dropped(player_id as int));
        self.drain_ready_inputs()
    }

    /// Whether a player is dropped.
    pub fn is_player_dropped(&self, player_id: usize) -> (dropped: bool)
        requires
            self.wf(),
        ensures
            dropped == (player_id < self@.players() && self@.dropped[player_id as int]),
    {
        player_id < self.dropped_players.len() && self.dropped_players[player_id]
    }

    /// Whether all players are dropped.
    pub fn all_players_dropped(&self) -> (all: bool)
        requires
            self.wf(),
        ensures
            all == (forall|p: int| 0 <= p < self@.players() ==> self@.dropped[p]),
    {
        let mut i: usize = 0;
        while i < self.dropped_players.len()
            invariant
                self.wf(),
                i <= self.dropped_players.len(),
                forall|p: int| 0 <= p < i ==> self@.dropped[p],
            decreases self.dropped_players.len() - i,
        {
            if !self.dropped_players[i] {
                assert(!self@.dropped[i as int]);
                return false;
            }
            i += 1;
        }
        true
    }
}

} // verus!
