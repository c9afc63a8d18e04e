//! Per-player frame buffers that are kept apart by source player.

use std::collections::VecDeque;
use vstd::prelude::*;
use crate::bytes_util::{append_bytes, copy_range};
#[allow(unused_imports)]
use super::combiner::{frames_view, lemma_frames_pop, lemma_frames_push, queues_view};
use super::input_cache::InputCache;

verus! {

/// The full 2-byte pieces of an input; an odd last byte is dropped.
pub open spec fn byte_pairs(data: Seq<u8>) -> Seq<Seq<u8>> {
    Seq::new(data.len() / 2, |i: int| data.subrange(2 * i, 2 * i + 2))
}

/// The first frames of all buffers that have one, joined in buffer order.
pub open spec fn heads(buffers: Seq<Seq<Seq<u8>>>) -> Seq<u8>
    decreases buffers.len(),
{
    if buffers.len() == 0 {
        Seq::empty()
    } else if buffers.last().len() > 0 {
        heads(buffers.drop_last()) + buffers.last()[0]
    } else {
        heads(buffers.drop_last())
    }
}

/// A buffer without its first frame.
pub open spec fn without_head(buffer: Seq<Seq<u8>>) -> Seq<Seq<u8>> {
    if buffer.len() > 0 {
        buffer.skip(1)
    } else {
        buffer
    }
}

/// All buffers without their first frames.
pub open spec fn tails(buffers: Seq<Seq<Seq<u8>>>) -> Seq<Seq<Seq<u8>>> {
    buffers.map_values(|b: Seq<Seq<u8>>| without_head(b))
}

/// The buffers after `rounds` frames were taken from each.
pub open spec fn tails_after(buffers: Seq<Seq<Seq<u8>>>, rounds: nat) -> Seq<Seq<Seq<u8>>>
    decreases rounds,
{
    if rounds == 0 {
        buffers
    } else {
        tails(tails_after(buffers, (rounds - 1) as nat))
    }
}

/// `rounds` frames of each buffer, interleaved frame by frame.
pub open spec fn interleaved(buffers: Seq<Seq<Seq<u8>>>, rounds: nat) -> Seq<u8>
    decreases rounds,
{
    if rounds == 0 {
        Seq::empty()
    } else {
        interleaved(buffers, (rounds - 1) as nat) + heads(
            tails_after(buffers, (rounds - 1) as nat),
        )
    }
}

/// Per-player input state.
#[derive(Debug, Clone)]
pub struct PlayerInput {
    /// Input frames (2-byte chunks).
    pub frames: Vec<Vec<u8>>,
    /// Client's input cache.
    pub client_cache: InputCache,
    /// Expected input size (delay * 2).
    pub input_size: usize,
    /// Delay value.
    pub delay: usize,
    /// Number of frames already distributed to send buffers.
    pub distributed_count: usize,
}

impl PlayerInput {
    /// An input state without frames.
    pub fn new(delay: usize) -> (input: Self)
        requires
            delay * 2 <= usize::MAX,
        ensures
            frames_view(input.frames@) == Seq::<Seq<u8>>::empty(),
            input.client_cache@ == Seq::<Seq<u8>>::empty(),
            input.input_size == delay * 2,
            input.delay == delay,
            input.distributed_count == 0,
    {
        let input = Self {
            frames: Vec::new(),
            client_cache: InputCache::new(),
            input_size: delay * 2,
            delay,
            distributed_count: 0,
        };
        assert(frames_view(input.frames@) =~= Seq::<Seq<u8>>::empty());
        input
    }

    /// Adds an input, split into 2-byte chunks.
    pub fn add_input(&mut self, data: Vec<u8>)
        ensures
            frames_view(final(self).frames@) == frames_view(old(self).frames@) + byte_pairs(data@),
            final(self).client_cache == old(self).client_cache,
            final(self).input_size == old(self).input_size,
            final(self).delay == old(self).delay,
            final(self).distributed_count == old(self).distributed_count,
    {
        let ghost before = frames_view(self.frames@);
        let len: usize = data.len();
        let pairs: usize = len / 2;
        let mut i: usize = 0;
        assert(frames_view(self.frames@) =~= before + byte_pairs(data@).take(0));
        while i < pairs
            invariant
                i <= pairs,
                len == data@.len(),
                pairs == len / 2,
                frames_view(self.frames@) == before + byte_pairs(data@).take(i as int),
                self.client_cache == old(self).client_cache,
                self.input_size == old(self).input_size,
                self.delay == old(self).delay,
                self.distributed_count == old(self).distributed_count,
            decreases pairs - i,
        {
            let chunk: Vec<u8> = copy_range(data.as_slice(), 2 * i, 2 * i + 2);
            let ghost listed = self.frames@;
            self.frames.push(chunk);
            proof {
                lemma_frames_push(listed, chunk);
            }
            i += 1;
            assert(frames_view(self.frames@) =~= before + byte_pairs(data@).take(i as int));
        }
        assert(byte_pairs(data@).take(i as int) =~= byte_pairs(data@));
    }
}

/// Per-player output state.
#[derive(Debug, Clone)]
pub struct PlayerOutputState {
    /// Frames to send to this player, one buffer per source player.
    pub send_buffers: Vec<VecDeque<Vec<u8>>>,
    /// Output cache (combined data this player has received).
    pub output_cache: InputCache,
    /// Delay value.
    pub delay: usize,
}

impl PlayerOutputState {
    /// An output state with empty buffers.
    pub fn new(player_count: usize, delay: usize) -> (state: Self)
        ensures
            queues_view(state.send_buffers@) == Seq::new(
                player_count as nat,
                |i: int| Seq::<Seq<u8>>::empty(),
            ),
            state.output_cache@ == Seq::<Seq<u8>>::empty(),
            state.delay == delay,
    {
        Self {
            send_buffers: super::delayed::empty_queues(player_count),
            output_cache: InputCache::new(),
            delay,
        }
    }

    /// Whether every buffer holds as many frames as the delay.
    pub fn can_send(&self) -> (ready: bool)
        ensures
            ready == (forall|i: int|
                0 <= i < self.send_buffers@.len() ==> (#[trigger] queues_view(
                    self.send_buffers@,
                )[i]).len() >= self.delay),
    {
        let mut i: usize = 0;
        while i < self.send_buffers.len()
            invariant
                i <= self.send_buffers@.len(),
                forall|j: int|
                    0 <= j < i ==> (#[trigger] queues_view(self.send_buffers@)[j]).len()
                        >= self.delay,
            decreases self.send_buffers.len() - i,
        {
            assert(queues_view(self.send_buffers@)[i as int].len()
                == self.send_buffers@[i as int]@.len());
            if self.send_buffers[i].len() < self.delay {
                return false;
            }
            i += 1;
        }
        true
    }

    /// Takes one frame from every buffer and joins them onto `combined`.
    fn take_heads(&mut self, combined: &mut Vec<u8>)
        ensures
            final(combined)@ == old(combined)@ + heads(queues_view(old(self).send_buffers@)),
            queues_view(final(self).send_buffers@) == tails(queues_view(old(self).send_buffers@)),
            final(self).output_cache == old(self).output_cache,
            final(self).delay == old(self).delay,
    {
        let ghost before = queues_view(self.send_buffers@);
        let ghost start = combined@;
        let count: usize = self.send_buffers.len();
        let mut i: usize = 0;
        assert(before.take(0) =~= Seq::empty());
        assert(combined@ =~= start + heads(before.take(0)));
        while i < count
            invariant
                i <= count,
                count == self.send_buffers@.len(),
                before.len() == count,
                combined@ == start + heads(before.take(i as int)),
                forall|j: int|
                    0 <= j < i ==> #[trigger] frames_view(self.send_buffers@[j]@) == without_head(
                        before[j],
                    ),
                forall|j: int|
                    i <= j < count ==> #[trigger] frames_view(self.send_buffers@[j]@) == before[j],
                self.output_cache == old(self).output_cache,
                self.delay == old(self).delay,
            decreases count - i,
        {
            let ghost done = before.take(i as int);
            let ghost more = before.take(i + 1);
            assert(more.drop_last() =~= done);
            assert(more.last() == before[i as int]);
            assert(frames_view(self.send_buffers@[i as int]@) == before[i as int]);
            if self.send_buffers[i].len() > 0 {
                let ghost buffers = self.send_buffers@;
                proof {
                    lemma_frames_pop(buffers[i as int]@);
                }
                if let Some(frame) = self.send_buffers[i].pop_front() {
                    append_bytes(combined, frame.as_slice());
                    assert forall|j: int| 0 <= j < count && j != i implies
                        #[trigger] self.send_buffers@[j] == buffers[j] by {}
                }
                assert(combined@ =~= start + heads(more));
            }
            i += 1;
        }
        assert(before.take(i as int) =~= before);
        assert(queues_view(self.send_buffers@) =~= tails(before));
    }

    /// Takes as many frames as the delay from every buffer and joins them, frame
    /// by frame in buffer order.
    pub fn extract_combined(&mut self) -> (combined: Vec<u8>)
        ensures
            combined@ == interleaved(
                queues_view(old(self).send_buffers@),
                old(self).delay as nat,
            ),
            queues_view(final(self).send_buffers@) == tails_after(
                queues_view(old(self).send_buffers@),
                old(self).delay as nat,
            ),
            final(self).output_cache == old(self).output_cache,
            final(self).delay == old(self).delay,
    {
        let ghost before = queues_view(self.send_buffers@);
        let mut combined: Vec<u8> = Vec::new();
        let mut round: usize = 0;
        while round < self.delay
            invariant
                round <= self.delay,
                self.delay == old(self).delay,
                self.output_cache == old(self).output_cache,
                combined@ == interleaved(before, round as nat),
                queues_view(self.send_buffers@) == tails_after(before, round as nat),
            decreases self.delay - round,
        {
            self.take_heads(&mut combined);
            round += 1;
        }
        combined
    }
}

/// What the first frames of buffers that all have one hold: them, in buffer order.
proof fn lemma_heads(buffers: Seq<Seq<Seq<u8>>>)
    requires
        forall|i: int| 0 <= i < buffers.len() ==> (#[trigger] buffers[i]).len() > 0,
    ensures
        heads(buffers) == Seq::new(buffers.len(), |i: int| buffers[i][0]).flatten(),
    decreases buffers.len(),
{
    let firsts = Seq::new(buffers.len(), |i: int| buffers[i][0]);
    if buffers.len() == 0 {
        assert(firsts =~= Seq::empty());
    } else {
        let front = buffers.drop_last();
        assert forall|i: int| 0 <= i < front.len() implies (#[trigger] front[i]).len() > 0 by {
            assert(front[i] == buffers[i]);
        }
        lemma_heads(front);
        let before = Seq::new(front.len(), |i: int| front[i][0]);
        assert(firsts =~= before.push(buffers.last()[0]));
        assert(buffers[buffers.len() - 1].len() > 0);
        lemma_flatten_push(before, buffers.last()[0]);
    }
}

proof fn lemma_flatten_push(list: Seq<Seq<u8>>, last: Seq<u8>)
    ensures
        list.push(last).flatten() == list.flatten() + last,
    decreases list.len(),
{
    let all = list.push(last);
    if list.len() == 0 {
        assert(all.drop_first() =~= Seq::empty());
        assert(all.flatten() =~= last + all.drop_first().flatten());
        assert(all.flatten() =~= list.flatten() + last);
    } else {
        assert(all.drop_first() =~= list.drop_first().push(last));
        lemma_flatten_push(list.drop_first(), last);
        assert(all.flatten() =~= list.flatten() + last);
    }
}

/// Taking `rounds` frames off buffers that all have as many takes them off the front
/// of each, and joins them round by round and within each round buffer by buffer.
pub proof fn law_rounds_are_taken_off_the_front(buffers: Seq<Seq<Seq<u8>>>, rounds: nat)
    requires
        forall|i: int| 0 <= i < buffers.len() ==> (#[trigger] buffers[i]).len() >= rounds,
    ensures
        tails_after(buffers, rounds) == Seq::new(
            buffers.len(),
            |i: int| buffers[i].skip(rounds as int),
        ),
        interleaved(buffers, rounds) == Seq::new(
            rounds,
            |f: int| Seq::new(buffers.len(), |i: int| buffers[i][f]).flatten(),
        ).flatten(),
    decreases rounds,
{
    let left = Seq::new(buffers.len(), |i: int| buffers[i].skip(rounds as int));
    let wanted = Seq::new(
        rounds,
        |f: int| Seq::new(buffers.len(), |i: int| buffers[i][f]).flatten(),
    );
    if rounds == 0 {
        assert forall|i: int| 0 <= i < buffers.len() implies #[trigger] left[i] == buffers[i] by {
            assert(buffers[i].skip(0) =~= buffers[i]);
        }
        assert(left =~= buffers);
        assert(wanted =~= Seq::empty());
    } else {
        let one_less = (rounds - 1) as nat;
        law_rounds_are_taken_off_the_front(buffers, one_less);
        let before = tails_after(buffers, one_less);
        assert forall|i: int| 0 <= i < before.len() implies (#[trigger] before[i]).len() > 0 by {
            assert(buffers[i].len() >= rounds);
        }
        lemma_heads(before);
        assert forall|i: int| 0 <= i < buffers.len() implies without_head(before[i])
            == #[trigger] left[i] by {
            assert(before[i].len() > 0);
            assert(before[i].skip(1) =~= buffers[i].skip(rounds as int));
        }
        assert(tails_after(buffers, rounds) =~= left);
        let now = Seq::new(buffers.len(), |i: int| buffers[i][one_less as int]);
        assert(Seq::new(before.len(), |i: int| before[i][0]) =~= now);
        let earlier = Seq::new(
            one_less,
            |f: int| Seq::new(buffers.len(), |i: int| buffers[i][f]).flatten(),
        );
        assert(wanted =~= earlier.push(now.flatten()));
        lemma_flatten_push(earlier, now.flatten());
    }
}

/// An input is cut into pairs of bytes, in order; an odd last byte is dropped.
pub proof fn law_input_is_cut_into_pairs(data: Seq<u8>, i: int)
    requires
        0 <= i < data.len() / 2,
    ensures
        byte_pairs(data).len() == data.len() / 2,
        byte_pairs(data)[i] == seq![data[2 * i], data[2 * i + 1]],
{
    assert(byte_pairs(data)[i] =~= seq![data[2 * i], data[2 * i + 1]]);
}

} // verus!
