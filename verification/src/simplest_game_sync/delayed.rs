//! The startup delay layer in front of the cached combiner.

use std::collections::VecDeque;
use vstd::prelude::*;
use crate::bytes_util::zero_bytes;
#[allow(unused_imports)]
use crate::bytes_util::zeros;
use super::cached::{empty_caches, resolve_input, CachedGameSync};
#[allow(unused_imports)]
use super::cached::{
    caches_fit, caches_view, lemma_after_drop_keeps, lemma_after_input_keeps, remembered, resolve,
    CachedModel,
};
#[allow(unused_imports)]
use super::combiner::{frames_view, lemma_frames_pop, lemma_frames_push, queues_view};
use super::input_cache::InputCache;
#[allow(unused_imports)]
use super::input_cache::CACHE_SLOTS;
use super::types::{CachedPlayerOutput, ClientInput, GameSyncError};
#[allow(unused_imports)]
use super::types::{cached_outputs_view, CachedOutputModel, InputModel};

verus! {

/// The delayed combiner as a mathematical value.
#[verifier::ext_equal]
pub struct DelayedModel {
    pub inner: CachedModel,
    /// Per player, what the client has sent.
    pub input_caches: Seq<Seq<Seq<u8>>>,
    /// Per player, the startup inputs that wait for release.
    pub queues: Seq<Seq<Seq<u8>>>,
    /// Per player, the zero frames sent so far.
    pub warmup_sent: Seq<usize>,
    /// Per player, the zero frames to send.
    pub total_delays: Seq<usize>,
    pub frame_size: usize,
}

impl DelayedModel {
    /// A delay layer over a combiner, before any input.
    pub open spec fn initial(inner: CachedModel, total_delays: Seq<usize>) -> DelayedModel {
        DelayedModel {
            inner,
            input_caches: Seq::new(inner.players(), |i: int| Seq::<Seq<u8>>::empty()),
            queues: Seq::new(inner.players(), |i: int| Seq::<Seq<u8>>::empty()),
            warmup_sent: Seq::new(inner.players(), |i: int| 0usize),
            total_delays,
            frame_size: 0,
        }
    }

    pub open spec fn players(self) -> nat {
        self.inner.players()
    }

    pub open spec fn wf(self) -> bool {
        &&& self.inner.wf()
        &&& self.input_caches.len() == self.players()
        &&& self.queues.len() == self.players()
        &&& self.warmup_sent.len() == self.players()
        &&& self.total_delays.len() == self.players()
        &&& caches_fit(self.input_caches)
    }

    /// The bytes an input of player `p` stands for.
    pub open spec fn resolved(self, p: int, input: InputModel) -> Option<Seq<u8>> {
        resolve(self.input_caches[p], input)
    }

    /// Player `p` still owes zero frames.
    pub open spec fn warming_up(self, p: int) -> bool {
        self.warmup_sent[p] < self.total_delays[p]
    }

    /// The frame size once these bytes were seen: the first input that is not
    /// empty fixes it.
    pub open spec fn learned_size(self, bytes: Seq<u8>) -> usize {
        if self.frame_size == 0 {
            bytes.len() as usize
        } else {
            self.frame_size
        }
    }

    /// Bytes of the zero frame that answers an input during warmup.
    pub open spec fn zero_frame_len(self, bytes: Seq<u8>) -> nat {
        (self.players() * self.learned_size(bytes)) as nat
    }

    /// What player `p` hands to the combiner after warmup: its oldest saved
    /// input, else the current one.
    pub open spec fn released(self, p: int, bytes: Seq<u8>) -> Seq<u8> {
        if self.queues[p].len() > 0 {
            self.queues[p][0]
        } else {
            bytes
        }
    }

    /// An input of player `p` can be processed to the end.
    pub open spec fn can_process(self, p: int, input: InputModel) -> bool {
        match self.resolved(p, input) {
            Some(bytes) => if self.warming_up(p) {
                self.zero_frame_len(bytes) <= usize::MAX
            } else {
                self.inner.can_process(p, InputModel::GameData(self.released(p, bytes)))
            },
            None => true,
        }
    }

    /// The model once an input of player `p` is resolved.
    pub open spec fn noted(self, p: int, input: InputModel) -> DelayedModel {
        DelayedModel {
            input_caches: self.input_caches.update(p, remembered(self.input_caches[p], input)),
            frame_size: self.learned_size(self.resolved(p, input)->0),
            ..self
        }
    }

    /// The model after an input of player `p`.
    pub open spec fn after_input(self, p: int, input: InputModel) -> DelayedModel {
        let bytes = self.resolved(p, input)->0;
        let noted = self.noted(p, input);
        if self.warming_up(p) {
            DelayedModel {
                inner: self.inner.after_response(p, zeros(self.zero_frame_len(bytes))),
                queues: self.queues.update(p, self.queues[p].push(bytes)),
                warmup_sent: self.warmup_sent.update(p, (self.warmup_sent[p] + 1) as usize),
                ..noted
            }
        } else {
            DelayedModel {
                inner: self.inner.after_input(p, InputModel::GameData(self.released(p, bytes))),
                queues: if self.queues[p].len() > 0 {
                    self.queues.update(p, self.queues[p].skip(1))
                } else {
                    self.queues
                },
                ..noted
            }
        }
    }

    /// What an input of player `p` sends.
    pub open spec fn input_responses(self, p: int, input: InputModel) -> Seq<CachedOutputModel> {
        let bytes = self.resolved(p, input)->0;
        if self.warming_up(p) {
            seq![
                CachedOutputModel {
                    player_id: p as usize,
                    response: self.inner.response(p, zeros(self.zero_frame_len(bytes))),
                },
            ]
        } else {
            self.inner.input_responses(p, InputModel::GameData(self.released(p, bytes)))
        }
    }

    /// An input of player `p` evicts an entry of an output cache. Zero frames of
    /// the warmup are not counted.
    pub open spec fn input_evicts(self, p: int, input: InputModel) -> bool {
        let data = InputModel::GameData(self.released(p, self.resolved(p, input)->0));
        !self.warming_up(p) && self.inner.combined(p, data).responses_evict(
            self.inner.raw_outputs(p, data),
        )
    }

    /// The last milestone of an output cache that an input of player `p`
    /// reaches. Zero frames of the warmup are not counted.
    pub open spec fn input_milestone(self, p: int, input: InputModel) -> Option<usize> {
        let data = InputModel::GameData(self.released(p, self.resolved(p, input)->0));
        if self.warming_up(p) {
            None
        } else {
            self.inner.combined(p, data).responses_milestone(self.inner.raw_outputs(p, data))
        }
    }

    /// The model after player `p` was dropped.
    pub open spec fn after_drop(self, p: int) -> DelayedModel {
        DelayedModel {
            inner: self.inner.after_drop(p),
            queues: self.queues.update(p, Seq::empty()),
            ..self
        }
    }
}

/// Per-player startup delay buffer placed in front of the combiner.
///
/// During startup, inputs are saved and zero frames are returned. Once warmup
/// ends, saved startup inputs are flushed one per new packet while the current
/// packet is discarded. After the saved queue drains, current inputs are
/// combined immediately.
///
/// Cache positions are resolved to bytes up front, and only resolved bytes are
/// saved: a position resolved later would read a client cache whose contents
/// have since shifted.
///
/// A startup delay of 0 is a transparent passthrough.
#[derive(Debug, Clone)]
pub struct DelayedGameSync {
    inner: CachedGameSync,
    /// Per-player client-input cache, for resolving incoming cache positions.
    input_caches: Vec<InputCache>,
    /// Per-player startup queue of resolved input bytes awaiting release.
    queues: Vec<VecDeque<Vec<u8>>>,
    /// Per-player count of warmup zero frames already sent.
    warmup_sent: Vec<usize>,
    /// Per-player startup zero-frame count.
    total_delays: Vec<usize>,
    /// One player's per-frame input size, learned from the first input.
    frame_size: usize,
}

impl View for DelayedGameSync {
    type V = DelayedModel;

    closed spec fn view(&self) -> DelayedModel {
        DelayedModel {
            inner: self.inner@,
            input_caches: caches_view(self.input_caches@),
            queues: queues_view(self.queues@),
            warmup_sent: self.warmup_sent@,
            total_delays: self.total_delays@,
            frame_size: self.frame_size,
        }
    }
}

/// `n` empty queues.
pub(crate) fn empty_queues(n: usize) -> (queues: Vec<VecDeque<Vec<u8>>>)
    ensures
        queues_view(queues@) == Seq::new(n as nat, |i: int| Seq::<Seq<u8>>::empty()),
{
    let mut queues: Vec<VecDeque<Vec<u8>>> = Vec::new();
    let mut i: usize = 0;
    while i < n
        invariant
            i <= n,
            queues@.len() == i,
            forall|j: int|
                0 <= j < i ==> #[trigger] frames_view(queues@[j]@) == Seq::<Seq<u8>>::empty(),
        decreases n - i,
    {
        let queue: VecDeque<Vec<u8>> = VecDeque::new();
        assert(frames_view(queue@) =~= Seq::<Seq<u8>>::empty());
        queues.push(queue);
        i += 1;
    }
    assert(queues_view(queues@) =~= Seq::new(n as nat, |i: int| Seq::<Seq<u8>>::empty()));
    queues
}

/// `n` copies of a number.
fn repeat_number(value: usize, n: usize) -> (numbers: Vec<usize>)
    ensures
        numbers@ == Seq::new(n as nat, |i: int| value),
{
    let mut numbers: Vec<usize> = Vec::new();
    let mut i: usize = 0;
    while i < n
        invariant
            i <= n,
            numbers@.len() == i,
            forall|j: int| 0 <= j < i ==> #[trigger] numbers@[j] == value,
        decreases n - i,
    {
        numbers.push(value);
        i += 1;
    }
    assert(numbers@ =~= Seq::new(n as nat, |i: int| value));
    numbers
}

impl DelayedGameSync {
    pub open spec fn wf(&self) -> bool {
        self@.wf()
    }

    /// Wraps a combiner with the same startup delay for every player.
    pub fn new(inner: CachedGameSync, total_delay: usize) -> (delayed: Self)
        requires
            inner.wf(),
        ensures
            delayed.wf(),
            delayed@ == DelayedModel::initial(
                inner@,
                Seq::new(inner@.players(), |i: int| total_delay),
            ),
    {
        let player_count: usize = inner.player_count();
        Self::with_player_delays(inner, repeat_number(total_delay, player_count))
    }

    /// Wraps a combiner with per-player startup delays.
    pub fn with_player_delays(inner: CachedGameSync, total_delays: Vec<usize>) -> (delayed: Self)
        requires
            inner.wf(),
            total_delays@.len() == inner@.players(),
        ensures
            delayed.wf(),
            delayed@ == DelayedModel::initial(inner@, total_delays@),
    {
        let player_count: usize = inner.player_count();
        let delayed = Self {
            inner,
            input_caches: empty_caches(player_count),
            queues: empty_queues(player_count),
            warmup_sent: repeat_number(0, player_count),
            total_delays,
            frame_size: 0,
        };
        assert(delayed@ =~= DelayedModel::initial(inner@, total_delays@));
        delayed
    }

    /// Processes a client input. Returns the outputs, whether an output cache
    /// evicted an entry, and the size of an output cache that passed a multiple
    /// of 64.
    pub fn process_client_input(&mut self, player_id: usize, input: ClientInput) -> (result: Result<
        (Vec<CachedPlayerOutput>, bool, Option<usize>),
        GameSyncError,
    >)
        requires
            old(self).wf(),
            player_id < old(self)@.players() ==> old(self)@.can_process(player_id as int, input@),
        ensures
            final(self).wf(),
            player_id >= old(self)@.players() ==> {
                &&& final(self)@ == old(self)@
                &&& result == Err::<(Vec<CachedPlayerOutput>, bool, Option<usize>), GameSyncError>(
                    GameSyncError::InvalidPlayerId {
                        player_id,
                        player_count: old(self)@.players() as usize,
                    },
                )
            },
            player_id < old(self)@.players() && old(self)@.resolved(player_id as int, input@) is None
                ==> {
                &&& final(self)@ == old(self)@
                &&& result == Err::<(Vec<CachedPlayerOutput>, bool, Option<usize>), GameSyncError>(
                    GameSyncError::CachePositionNotFound {
                        player_id,
                        position: input@->GameCache_0,
                    },
                )
            },
            player_id < old(self)@.players() && old(self)@.resolved(player_id as int, input@) is Some
                ==> {
                &&& final(self)@ == old(self)@.after_input(player_id as int, input@)
                &&& result matches Ok((outputs, overflowed, milestone)) && {
                    &&& cached_outputs_view(outputs@) == old(self)@.input_responses(
                        player_id as int,
                        input@,
                    )
                    &&& overflowed == old(self)@.input_evicts(player_id as int, input@)
                    &&& milestone == old(self)@.input_milestone(player_id as int, input@)
                }
            },
    {
        let player_count: usize = self.inner.player_count();
        if player_id >= player_count {
            return Err(GameSyncError::InvalidPlayerId { player_id, player_count });
        }
        let ghost before = self@;
        let ghost p = player_id as int;
        assert(before.input_caches[p] == self.input_caches@[p]@);
        assert(before.input_caches[p].len() <= CACHE_SLOTS);
        assert(before.queues[p] == frames_view(self.queues@[p]@));
        let position: u8 = match &input {
            ClientInput::GameData(_) => 0,
            ClientInput::GameCache(pos) => *pos,
        };
        // Resolve before the delay, so that a saved input cannot go stale.
        let bytes: Vec<u8> = match resolve_input(&mut self.input_caches[player_id], input) {
            Some(data) => data,
            None => {
                assert(self@.input_caches =~= before.input_caches);
                return Err(GameSyncError::CachePositionNotFound { player_id, position });
            },
        };
        assert(self@.input_caches =~= before.noted(p, input@).input_caches);
        assert forall|q: int| 0 <= q < self@.input_caches.len() implies (
        #[trigger] self@.input_caches[q]).len() <= CACHE_SLOTS by {
            assert(before.input_caches[q].len() <= CACHE_SLOTS);
        }
        if self.frame_size == 0 && bytes.len() > 0 {
            self.frame_size = bytes.len();
        }
        assert(self@ =~= before.noted(p, input@));

        let total_delay: usize = self.total_delays[player_id];
        let sent: usize = self.warmup_sent[player_id];
        if sent < total_delay {
            let ghost queues = self.queues@;
            proof {
                lemma_frames_push(queues[p]@, bytes);
            }
            let ghost saved = bytes@;
            self.queues[player_id].push_back(bytes);
            assert(self@.queues =~= before.queues.update(p, before.queues[p].push(saved)));
            self.warmup_sent.set(player_id, sent + 1);
            assert(player_count * self.frame_size == before.zero_frame_len(saved));
            let zero: Vec<u8> = zero_bytes(player_count * self.frame_size);
            let (response, _, _) = self.inner.make_cached_output(player_id, zero);
            let mut outputs: Vec<CachedPlayerOutput> = Vec::new();
            outputs.push(CachedPlayerOutput { player_id, response });
            assert(cached_outputs_view(outputs@) =~= before.input_responses(p, input@));
            assert(self@ =~= before.after_input(p, input@));
            return Ok((outputs, false, None));
        }
        proof {
            let released = InputModel::GameData(before.released(p, bytes@));
            lemma_after_input_keeps(before.inner, p, released);
        }
        // Catch-up: while startup inputs remain, flush them and drop the current
        // packet, so lag returns to normal after startup.

        if self.queues[player_id].len() > 0 {
            let ghost queues = self.queues@;
            proof {
                lemma_frames_pop(queues[p]@);
            }
            if let Some(due) = self.queues[player_id].pop_front() {
                assert(self@.queues =~= before.queues.update(p, before.queues[p].skip(1)));
                let result = self.inner.process_client_input(
                    player_id,
                    ClientInput::GameData(due),
                );
                assert(self@ =~= before.after_input(p, input@));
                return result;
            }
        }
        let result = self.inner.process_client_input(player_id, ClientInput::GameData(bytes));
        assert(self@ =~= before.after_input(p, input@));
        result
    }

    /// Marks a player as dropped. Returns the outputs that the drop releases.
    pub fn mark_player_dropped(&mut self, player_id: usize) -> (result: Result<
        Vec<CachedPlayerOutput>,
        GameSyncError,
    >)
        requires
            old(self).wf(),
            player_id < old(self)@.players() ==> old(self)@.inner.sync.with_dropped(
                player_id as int,
            ).can_drain(),
        ensures
            final(self).wf(),
            player_id >= old(self)@.players() ==> {
                &&& final(self)@ == old(self)@
                &&& result == Err::<Vec<CachedPlayerOutput>, GameSyncError>(
                    GameSyncError::InvalidPlayerId {
                        player_id,
                        player_count: old(self)@.players() as usize,
                    },
                )
            },
            player_id < old(self)@.players() ==> {
                &&& final(self)@ == old(self)@.after_drop(player_id as int)
                &&& result matches Ok(outputs) && cached_outputs_view(outputs@)
                    == old(self)@.inner.drop_responses(player_id as int)
            },
    {
        let ghost before = self@;
        // A dropped player's saved inputs are moot.
        if player_id < self.inner.player_count() {
            proof {
                lemma_after_drop_keeps(before.inner, player_id as int);
            }
            self.queues[player_id].clear();
            assert(frames_view(self.queues@[player_id as int]@) =~= Seq::<Seq<u8>>::empty());
            assert(self@.queues =~= before.queues.update(player_id as int, Seq::empty()));
        }
        let result = self.inner.mark_player_dropped(player_id);
        assert(player_id < before.players() ==> self@ =~= before.after_drop(player_id as int));
        result
    }

    /// Whether a player is dropped.
    pub fn is_player_dropped(&self, player_id: usize) -> (dropped: bool)
        requires
            self.wf(),
        ensures
            dropped == (player_id < self@.players() && self@.inner.sync.dropped[player_id as int]),
    {
        self.inner.is_player_dropped(player_id)
    }

    /// Number of players.
    pub fn player_count(&self) -> (n: usize)
        requires
            self.wf(),
        ensures
            n == self@.players(),
    {
        self.inner.player_count()
    }

    /// The batch delay of a player.
    pub fn get_player_delay(&self, player_id: usize) -> (delay: usize)
        requires
            self.wf(),
            player_id < self@.players(),
        ensures
            delay == self@.inner.sync.delays[player_id as int],
    {
        self.inner.get_player_delay(player_id)
    }

    /// Whether every player is dropped.
    pub fn all_players_dropped(&self) -> (all: bool)
        requires
            self.wf(),
        ensures
            all == (forall|p: int|
                0 <= p < self@.players() ==> #[trigger] self@.inner.sync.dropped[p]),
    {
        self.inner.all_players_dropped()
    }
}

} // verus!
