//! The cache layer: repeated inputs and outputs travel as cache positions.

use vstd::prelude::*;
use crate::bytes_util::copy_bytes;
use super::combiner::SimplestGameSync;
#[allow(unused_imports)]
use super::combiner::{lemma_drain_outputs_in_range, lemma_drained_keeps, SyncModel};
use super::input_cache::InputCache;
#[allow(unused_imports)]
use super::input_cache::{cache_find, cache_push, CACHE_SLOTS};
use super::types::{CachedPlayerOutput, ClientInput, GameSyncError, PlayerOutput, ServerResponse};
#[allow(unused_imports)]
use super::types::{
    cached_outputs_view, outputs_view, CachedOutputModel, InputModel, OutputModel, ResponseModel,
};

verus! {

/// A cache size is reported each time it passes a multiple of this.
pub const CACHE_MILESTONE: usize = 64;

/// The bytes an input stands for, if the cache holds them.
pub open spec fn resolve(cache: Seq<Seq<u8>>, input: InputModel) -> Option<Seq<u8>> {
    match input {
        InputModel::GameData(data) => Some(data),
        InputModel::GameCache(pos) => if pos < cache.len() {
            Some(cache[pos as int])
        } else {
            None
        },
    }
}

/// The client's cache after it sent an input.
pub open spec fn remembered(cache: Seq<Seq<u8>>, input: InputModel) -> Seq<Seq<u8>> {
    match input {
        InputModel::GameData(data) => cache_push(cache, data),
        InputModel::GameCache(_) => cache,
    }
}

/// The views of a list of caches.
pub open spec fn caches_view(caches: Seq<InputCache>) -> Seq<Seq<Seq<u8>>> {
    caches.map_values(|c: InputCache| c@)
}

/// No cache is longer than its slots.
pub open spec fn caches_fit(caches: Seq<Seq<Seq<u8>>>) -> bool {
    forall|p: int| 0 <= p < caches.len() ==> (#[trigger] caches[p]).len() <= CACHE_SLOTS
}

/// The cached combiner as a mathematical value.
#[verifier::ext_equal]
pub struct CachedModel {
    pub sync: SyncModel,
    /// Per player, what the client has sent.
    pub input_caches: Seq<Seq<Seq<u8>>>,
    /// Per player, what the client has been sent.
    pub output_caches: Seq<Seq<Seq<u8>>>,
    pub disable_output_cache: bool,
}

impl CachedModel {
    /// A cached combiner for players with these delays, before any input.
    pub open spec fn initial(delays: Seq<usize>) -> CachedModel {
        CachedModel {
            sync: SyncModel::initial(delays),
            input_caches: Seq::new(delays.len(), |i: int| Seq::<Seq<u8>>::empty()),
            output_caches: Seq::new(delays.len(), |i: int| Seq::<Seq<u8>>::empty()),
            disable_output_cache: false,
        }
    }

    pub open spec fn players(self) -> nat {
        self.sync.players()
    }

    pub open spec fn wf(self) -> bool {
        &&& self.sync.wf()
        &&& self.input_caches.len() == self.players()
        &&& self.output_caches.len() == self.players()
        &&& caches_fit(self.input_caches)
        &&& caches_fit(self.output_caches)
    }

    /// How combined bytes travel to player `p`.
    pub open spec fn response(self, p: int, output: Seq<u8>) -> ResponseModel {
        if self.disable_output_cache {
            ResponseModel::GameData(output)
        } else {
            match cache_find(self.output_caches[p], output) {
                Some(pos) => ResponseModel::GameCache(pos),
                None => ResponseModel::GameData(output),
            }
        }
    }

    /// Combined bytes for player `p` are new to its cache.
    pub open spec fn caches_output(self, p: int, output: Seq<u8>) -> bool {
        !self.disable_output_cache && !self.output_caches[p].contains(output)
    }

    /// The model after combined bytes were sent to player `p`.
    pub open spec fn after_response(self, p: int, output: Seq<u8>) -> CachedModel {
        if self.caches_output(p, output) {
            CachedModel {
                output_caches: self.output_caches.update(
                    p,
                    cache_push(self.output_caches[p], output),
                ),
                ..self
            }
        } else {
            self
        }
    }

    /// Sending these bytes evicts an entry of player `p`'s cache.
    pub open spec fn response_evicts(self, p: int, output: Seq<u8>) -> bool {
        self.caches_output(p, output) && self.output_caches[p].len() >= CACHE_SLOTS
    }

    /// The size of player `p`'s cache, where sending these bytes makes it pass
    /// a multiple of 64.
    pub open spec fn response_milestone(self, p: int, output: Seq<u8>) -> Option<usize> {
        let before = self.output_caches[p].len();
        let after = self.after_response(p, output).output_caches[p].len();
        if before / CACHE_MILESTONE as nat != after / CACHE_MILESTONE as nat {
            Some(after as usize)
        } else {
            None
        }
    }

    /// The model after all of these outputs were sent, in order.
    pub open spec fn after_responses(self, outputs: Seq<OutputModel>) -> CachedModel
        decreases outputs.len(),
    {
        if outputs.len() == 0 {
            self
        } else {
            self.after_responses(outputs.drop_last()).after_response(
                outputs.last().player_id as int,
                outputs.last().output,
            )
        }
    }

    /// How these outputs travel, in order.
    pub open spec fn responses(self, outputs: Seq<OutputModel>) -> Seq<CachedOutputModel>
        decreases outputs.len(),
    {
        if outputs.len() == 0 {
            Seq::empty()
        } else {
            let last = outputs.last();
            self.responses(outputs.drop_last()).push(
                CachedOutputModel {
                    player_id: last.player_id,
                    response: self.after_responses(outputs.drop_last()).response(
                        last.player_id as int,
                        last.output,
                    ),
                },
            )
        }
    }

    /// Sending these outputs evicts an entry of some cache.
    pub open spec fn responses_evict(self, outputs: Seq<OutputModel>) -> bool
        decreases outputs.len(),
    {
        outputs.len() > 0 && {
            ||| self.responses_evict(outputs.drop_last())
            ||| self.after_responses(outputs.drop_last()).response_evicts(
                outputs.last().player_id as int,
                outputs.last().output,
            )
        }
    }

    /// The last milestone that sending these outputs reaches.
    pub open spec fn responses_milestone(self, outputs: Seq<OutputModel>) -> Option<usize>
        decreases outputs.len(),
    {
        if outputs.len() == 0 {
            None
        } else {
            let reached = self.after_responses(outputs.drop_last()).response_milestone(
                outputs.last().player_id as int,
                outputs.last().output,
            );
            if reached is Some {
                reached
            } else {
                self.responses_milestone(outputs.drop_last())
            }
        }
    }

    /// The bytes an input of player `p` stands for.
    pub open spec fn resolved(self, p: int, input: InputModel) -> Option<Seq<u8>> {
        resolve(self.input_caches[p], input)
    }

    /// An input of player `p` can be processed to the end.
    pub open spec fn can_process(self, p: int, input: InputModel) -> bool {
        match self.resolved(p, input) {
            Some(data) => self.sync.dropped[p] || self.sync.with_input(p, data).can_drain(),
            None => true,
        }
    }

    /// The model once the combiner has taken an input of player `p`, before
    /// anything is sent.
    pub open spec fn combined(self, p: int, input: InputModel) -> CachedModel {
        CachedModel {
            sync: self.sync.after_input(p, self.resolved(p, input)->0),
            input_caches: self.input_caches.update(p, remembered(self.input_caches[p], input)),
            ..self
        }
    }

    /// What the combiner makes of an input of player `p`.
    pub open spec fn raw_outputs(self, p: int, input: InputModel) -> Seq<OutputModel> {
        self.sync.input_outputs(p, self.resolved(p, input)->0)
    }

    /// The model after an input of player `p`.
    pub open spec fn after_input(self, p: int, input: InputModel) -> CachedModel {
        self.combined(p, input).after_responses(self.raw_outputs(p, input))
    }

    /// What an input of player `p` sends.
    pub open spec fn input_responses(self, p: int, input: InputModel) -> Seq<CachedOutputModel> {
        self.combined(p, input).responses(self.raw_outputs(p, input))
    }

    /// The model with player `p` dropped and its rounds played, before anything
    /// is sent.
    pub open spec fn drop_combined(self, p: int) -> CachedModel {
        CachedModel { sync: self.sync.with_dropped(p).drained(), ..self }
    }

    /// The model after player `p` was dropped.
    pub open spec fn after_drop(self, p: int) -> CachedModel {
        self.drop_combined(p).after_responses(self.sync.with_dropped(p).drain_outputs())
    }

    /// What dropping player `p` sends.
    pub open spec fn drop_responses(self, p: int) -> Seq<CachedOutputModel> {
        self.drop_combined(p).responses(self.sync.with_dropped(p).drain_outputs())
    }
}

/// Wrapper layer that adds cache support to the combiner.
#[derive(Debug, Clone)]
pub struct CachedGameSync {
    /// Core sync engine without cache.
    pub sync: SimplestGameSync,
    /// Per-player input caches (client-side cache).
    input_caches: Vec<InputCache>,
    /// Per-player output caches (server-side cache).
    output_caches: Vec<InputCache>,
    /// When true, outputs are always sent as full game data and never as a
    /// cache position, and the output caches are neither queried nor filled.
    disable_output_cache: bool,
}

impl View for CachedGameSync {
    type V = CachedModel;

    closed spec fn view(&self) -> CachedModel {
        CachedModel {
            sync: self.sync@,
            input_caches: caches_view(self.input_caches@),
            output_caches: caches_view(self.output_caches@),
            disable_output_cache: self.disable_output_cache,
        }
    }
}

/// `n` empty caches.
pub fn empty_caches(n: usize) -> (caches: Vec<InputCache>)
    ensures
        caches_view(caches@) == Seq::new(n as nat, |i: int| Seq::<Seq<u8>>::empty()),
{
    let mut caches: Vec<InputCache> = Vec::new();
    let mut i: usize = 0;
    while i < n
        invariant
            i <= n,
            caches@.len() == i,
            forall|j: int| 0 <= j < i ==> (#[trigger] caches@[j])@ == Seq::<Seq<u8>>::empty(),
        decreases n - i,
    {
        caches.push(InputCache::new());
        i += 1;
    }
    assert(caches_view(caches@) =~= Seq::new(n as nat, |i: int| Seq::<Seq<u8>>::empty()));
    caches
}

/// The bytes an input stands for. An input that carries its bytes is added to
/// the cache.
pub fn resolve_input(cache: &mut InputCache, input: ClientInput) -> (data: Option<Vec<u8>>)
    requires
        old(cache).wf(),
    ensures
        final(cache).wf(),
        final(cache)@ == remembered(old(cache)@, input@),
        match data {
            Some(bytes) => resolve(old(cache)@, input@) == Some(bytes@),
            None => resolve(old(cache)@, input@) is None,
        },
{
    match input {
        ClientInput::GameData(data) => {
            let kept: Vec<u8> = copy_bytes(data.as_slice());
            cache.push(kept);
            Some(data)
        },
        ClientInput::GameCache(pos) => match cache.get(pos) {
            Some(entry) => Some(copy_bytes(entry)),
            None => None,
        },
    }
}

/// Sending keeps a model well-formed and touches only the output caches.
pub proof fn lemma_after_responses_keeps(m: CachedModel, outputs: Seq<OutputModel>)
    requires
        m.wf(),
        forall|i: int|
            0 <= i < outputs.len() ==> (#[trigger] outputs[i]).player_id < m.players(),
    ensures
        m.after_responses(outputs).wf(),
        m.after_responses(outputs).sync == m.sync,
        m.after_responses(outputs).input_caches == m.input_caches,
        m.after_responses(outputs).disable_output_cache == m.disable_output_cache,
    decreases outputs.len(),
{
    if outputs.len() > 0 {
        let front = outputs.drop_last();
        assert forall|i: int| 0 <= i < front.len() implies (#[trigger] front[i]).player_id
            < m.players() by {
            assert(front[i] == outputs[i]);
        }
        lemma_after_responses_keeps(m, front);
        let prev = m.after_responses(front);
        let last = outputs[outputs.len() - 1];
        assert(last.player_id < m.players());
        let next = prev.after_response(last.player_id as int, last.output);
        assert forall|p: int| 0 <= p < next.output_caches.len() implies (
        #[trigger] next.output_caches[p]).len() <= CACHE_SLOTS by {
            assert(prev.output_caches[p].len() <= CACHE_SLOTS);
        }
    }
}

/// An input keeps a model well-formed, and keeps the delays, the drops and the
/// output mode.
pub proof fn lemma_after_input_keeps(m: CachedModel, p: int, input: InputModel)
    requires
        m.wf(),
        0 <= p < m.players(),
        m.resolved(p, input) is Some,
    ensures
        m.after_input(p, input).wf(),
        m.after_input(p, input).sync == m.sync.after_input(p, m.resolved(p, input)->0),
        m.after_input(p, input).sync.delays == m.sync.delays,
        m.after_input(p, input).sync.dropped == m.sync.dropped,
        m.after_input(p, input).disable_output_cache == m.disable_output_cache,
        m.combined(p, input).wf(),
        forall|i: int|
            0 <= i < m.raw_outputs(p, input).len() ==> (#[trigger] m.raw_outputs(
                p,
                input,
            )[i]).player_id < m.players(),
{
    let fed = m.sync.with_input(p, m.resolved(p, input)->0);
    lemma_drain_outputs_in_range(fed);
    lemma_drained_keeps(fed);
    let combined = m.combined(p, input);
    assert forall|q: int| 0 <= q < combined.input_caches.len() implies (
    #[trigger] combined.input_caches[q]).len() <= CACHE_SLOTS by {
        assert(m.input_caches[q].len() <= CACHE_SLOTS);
    }
    lemma_after_responses_keeps(combined, m.raw_outputs(p, input));
}

/// A drop keeps a model well-formed, and keeps the delays and the output mode.
pub proof fn lemma_after_drop_keeps(m: CachedModel, p: int)
    requires
        m.wf(),
        0 <= p < m.players(),
    ensures
        m.after_drop(p).wf(),
        m.after_drop(p).sync == m.sync.with_dropped(p).drained(),
        m.after_drop(p).sync.delays == m.sync.delays,
        m.after_drop(p).sync.dropped == m.sync.dropped.update(p, true),
        m.after_drop(p).disable_output_cache == m.disable_output_cache,
        m.drop_combined(p).wf(),
        forall|i: int|
            0 <= i < m.sync.with_dropped(p).drain_outputs().len() ==> (
            #[trigger] m.sync.with_dropped(p).drain_outputs()[i]).player_id < m.players(),
{
    let marked = m.sync.with_dropped(p);
    lemma_drain_outputs_in_range(marked);
    lemma_drained_keeps(marked);
    lemma_after_responses_keeps(m.drop_combined(p), marked.drain_outputs());
}

impl CachedGameSync {
    pub open spec fn wf(&self) -> bool {
        self@.wf()
    }

    /// A cached combiner for players with these delays.
    pub fn new(player_delays: Vec<usize>) -> (cached: Self)
        ensures
            cached.wf(),
            cached@ == CachedModel::initial(player_delays@),
    {
        let player_count: usize = player_delays.len();
        let cached = Self {
            sync: SimplestGameSync::new(player_delays),
            input_caches: empty_caches(player_count),
            output_caches: empty_caches(player_count),
            disable_output_cache: false,
        };
        assert(cached@ =~= CachedModel::initial(player_delays@));
        cached
    }

    /// Chooses whether outputs are always sent as full game data.
    pub fn with_output_cache_disabled(self, disabled: bool) -> (cached: Self)
        ensures
            cached@ == (CachedModel { disable_output_cache: disabled, ..self@ }),
    {
        CachedGameSync { disable_output_cache: disabled, ..self }
    }

    /// Turns combined bytes for a player into a response, and keeps the
    /// player's output cache in step with what the client holds. Returns the
    /// response, whether the cache evicted an entry, and the cache's size where
    /// it passed a multiple of 64.
    pub(crate) fn make_cached_output(&mut self, player_id: usize, output: Vec<u8>) -> (result: (
        ServerResponse,
        bool,
        Option<usize>,
    ))
        requires
            old(self).wf(),
            player_id < old(self)@.players(),
        ensures
            final(self).wf(),
            final(self)@ == old(self)@.after_response(player_id as int, output@),
            result.0@ == old(self)@.response(player_id as int, output@),
            result.1 == old(self)@.response_evicts(player_id as int, output@),
            result.2 == old(self)@.response_milestone(player_id as int, output@),
    {
        if self.disable_output_cache {
            return (ServerResponse::GameData(output), false, None);
        }
        let ghost before = self@;
        assert(before.output_caches[player_id as int] == self.output_caches@[player_id as int]@);
        assert(before.output_caches[player_id as int].len() <= CACHE_SLOTS);
        match self.output_caches[player_id].find(output.as_slice()) {
            Some(pos) => (ServerResponse::GameCache(pos), false, None),
            None => {
                let size_before: usize = self.output_caches[player_id].len();
                let kept: Vec<u8> = copy_bytes(output.as_slice());
                let overflowed: bool = self.output_caches[player_id].push(kept);
                let size_after: usize = self.output_caches[player_id].len();
                assert(self@.output_caches =~= before.output_caches.update(
                    player_id as int,
                    cache_push(before.output_caches[player_id as int], output@),
                ));
                let milestone: Option<usize> = if size_before / CACHE_MILESTONE != size_after
                    / CACHE_MILESTONE {
                    Some(size_after)
                } else {
                    None
                };
                assert forall|p: int| 0 <= p < self@.output_caches.len() implies (
                #[trigger] self@.output_caches[p]).len() <= CACHE_SLOTS by {
                    assert(before.output_caches[p].len() <= CACHE_SLOTS);
                }
                (ServerResponse::GameData(output), overflowed, milestone)
            },
        }
    }

    /// Turns raw outputs into responses, in order.
    fn cache_outputs(&mut self, raw_outputs: Vec<PlayerOutput>) -> (result: (
        Vec<CachedPlayerOutput>,
        bool,
        Option<usize>,
    ))
        requires
            old(self).wf(),
            forall|i: int|
                0 <= i < raw_outputs@.len() ==> (#[trigger] outputs_view(raw_outputs@)[i]).player_id
                    < old(self)@.players(),
        ensures
            final(self).wf(),
            final(self)@ == old(self)@.after_responses(outputs_view(raw_outputs@)),
            cached_outputs_view(result.0@) == old(self)@.responses(outputs_view(raw_outputs@)),
            result.1 == old(self)@.responses_evict(outputs_view(raw_outputs@)),
            result.2 == old(self)@.responses_milestone(outputs_view(raw_outputs@)),
    {
        let ghost before = self@;
        let ghost all = outputs_view(raw_outputs@);
        let mut results: Vec<CachedPlayerOutput> = Vec::new();
        let mut cache_overflowed: bool = false;
        let mut milestone: Option<usize> = None;
        let mut i: usize = 0;
        assert(all.take(0) =~= Seq::empty());
        assert(cached_outputs_view(results@) =~= Seq::empty());
        while i < raw_outputs.len()
            invariant
                i <= raw_outputs@.len(),
                all == outputs_view(raw_outputs@),
                before.wf(),
                self.wf(),
                forall|j: int|
                    0 <= j < raw_outputs@.len() ==> (#[trigger] all[j]).player_id
                        < before.players(),
                self@.players() == before.players(),
                self@ == before.after_responses(all.take(i as int)),
                cached_outputs_view(results@) == before.responses(all.take(i as int)),
                cache_overflowed == before.responses_evict(all.take(i as int)),
                milestone == before.responses_milestone(all.take(i as int)),
            decreases raw_outputs.len() - i,
        {
            let ghost done = all.take(i as int);
            let ghost more = all.take(i + 1);
            assert(more.drop_last() =~= done);
            assert(more.last() == all[i as int]);
            assert(all[i as int] == raw_outputs@[i as int]@);
            let ghost listed = results@;
            let player_id: usize = raw_outputs[i].player_id;
            let output: Vec<u8> = copy_bytes(raw_outputs[i].output.as_slice());
            let (response, overflowed, crossed) = self.make_cached_output(player_id, output);
            if overflowed {
                cache_overflowed = true;
            }
            if crossed.is_some() {
                milestone = crossed;
            }
            results.push(CachedPlayerOutput { player_id, response });
            assert(cached_outputs_view(results@) =~= cached_outputs_view(listed).push(
                CachedOutputModel { player_id, response: response@ },
            ));
            i += 1;
        }
        assert(all.take(i as int) =~= all);
        (results, cache_overflowed, milestone)
    }

    /// Processes a client input with cache support. Returns the outputs,
    /// whether an output cache evicted an entry, and the size of an output
    /// cache that passed a multiple of 64.
    pub fn process_client_input(&mut self, player_id: usize, input: ClientInput) -> (result: Result<
        (Vec<CachedPlayerOutput>, bool, Option<usize>),
        GameSyncError,
    >)
        requires
            old(self).wf(),
            player_id < old(self)@.players() ==> old(self)@.can_process(player_id as int, input@),
        ensures
            final(self).wf(),
            player_id >= old(self)@.players() ==> {
                &&& final(self)@ == old(self)@
                &&& result == Err::<(Vec<CachedPlayerOutput>, bool, Option<usize>), GameSyncError>(
                    GameSyncError::InvalidPlayerId {
                        player_id,
                        player_count: old(self)@.players() as usize,
                    },
                )
            },
            player_id < old(self)@.players() && old(self)@.resolved(player_id as int, input@) is None
                ==> {
                &&& final(self)@ == old(self)@
                &&& result == Err::<(Vec<CachedPlayerOutput>, bool, Option<usize>), GameSyncError>(
                    GameSyncError::CachePositionNotFound {
                        player_id,
                        position: input@->GameCache_0,
                    },
                )
            },
            player_id < old(self)@.players() && old(self)@.resolved(player_id as int, input@) is Some
                ==> {
                let combined = old(self)@.combined(player_id as int, input@);
                let raw = old(self)@.raw_outputs(player_id as int, input@);
                &&& final(self)@ == old(self)@.after_input(player_id as int, input@)
                &&& result matches Ok((outputs, overflowed, milestone)) && {
                    &&& cached_outputs_view(outputs@) == old(self)@.input_responses(
                        player_id as int,
                        input@,
                    )
                    &&& overflowed == combined.responses_evict(raw)
                    &&& milestone == combined.responses_milestone(raw)
                }
            },
    {
        let player_count: usize = self.sync.player_delays().len();
        if player_id >= player_count {
            return Err(GameSyncError::InvalidPlayerId { player_id, player_count });
        }
        let ghost before = self@;
        assert(before.input_caches[player_id as int] == self.input_caches@[player_id as int]@);
        assert(before.input_caches[player_id as int].len() <= CACHE_SLOTS);
        let position: u8 = match &input {
            ClientInput::GameData(_) => 0,
            ClientInput::GameCache(pos) => *pos,
        };
        let input_data: Vec<u8> = match resolve_input(&mut self.input_caches[player_id], input) {
            Some(data) => data,
            None => {
                assert(self@.input_caches =~= before.input_caches);
                return Err(GameSyncError::CachePositionNotFound { player_id, position });
            },
        };
        assert(self@.input_caches =~= before.input_caches.update(
            player_id as int,
            remembered(before.input_caches[player_id as int], input@),
        ));
        assert forall|p: int| 0 <= p < self@.input_caches.len() implies (
        #[trigger] self@.input_caches[p]).len() <= CACHE_SLOTS by {
            assert(before.input_caches[p].len() <= CACHE_SLOTS);
        }
        let raw_outputs: Vec<PlayerOutput> = match self.sync.process_client_input(
            player_id,
            input_data,
        ) {
            Ok(outputs) => outputs,
            Err(error) => {
                return Err(error);
            },
        };
        proof {
            let fed = before.sync.with_input(player_id as int, input_data@);
            lemma_drain_outputs_in_range(fed);
            lemma_drained_keeps(fed);
            assert(self@ =~= before.combined(player_id as int, input@));
        }
        Ok(self.cache_outputs(raw_outputs))
    }

    /// Number of players.
    pub fn player_count(&self) -> (n: usize)
        ensures
            n == self@.players(),
    {
        self.sync.player_delays().len()
    }

    /// The delay of a player.
    pub fn get_player_delay(&self, player_id: usize) -> (delay: usize)
        requires
            player_id < self@.players(),
        ensures
            delay == self@.sync.delays[player_id as int],
    {
        self.sync.player_delays()[player_id]
    }

    /// Marks a player as dropped. Returns the outputs that the drop releases.
    pub fn mark_player_dropped(&mut self, player_id: usize) -> (result: Result<
        Vec<CachedPlayerOutput>,
        GameSyncError,
    >)
        requires
            old(self).wf(),
            player_id < old(self)@.players() ==> old(self)@.sync.with_dropped(
                player_id as int,
            ).can_drain(),
        ensures
            final(self).wf(),
            player_id >= old(self)@.players() ==> {
                &&& final(self)@ == old(self)@
                &&& result == Err::<Vec<CachedPlayerOutput>, GameSyncError>(
                    GameSyncError::InvalidPlayerId {
                        player_id,
                        player_count: old(self)@.players() as usize,
                    },
                )
            },
            player_id < old(self)@.players() ==> {
                &&& final(self)@ == old(self)@.after_drop(player_id as int)
                &&& result matches Ok(outputs) && cached_outputs_view(outputs@)
                    == old(self)@.drop_responses(player_id as int)
            },
    {
        let ghost before = self@;
        let raw_outputs: Vec<PlayerOutput> = match self.sync.mark_player_dropped(player_id) {
            Ok(outputs) => outputs,
            Err(error) => {
                return Err(error);
            },
        };
        proof {
            let marked = before.sync.with_dropped(player_id as int);
            lemma_drain_outputs_in_range(marked);
            lemma_drained_keeps(marked);
            assert(self@ =~= before.drop_combined(player_id as int));
        }
        let (results, _, _) = self.cache_outputs(raw_outputs);
        Ok(results)
    }

    /// Whether a player is dropped.
    pub fn is_player_dropped(&self, player_id: usize) -> (dropped: bool)
        requires
            self.wf(),
        ensures
            dropped == (player_id < self@.players() && self@.sync.dropped[player_id as int]),
    {
        self.sync.is_player_dropped(player_id)
    }

    /// Whether every player is dropped.
    pub fn all_players_dropped(&self) -> (all: bool)
        requires
            self.wf(),
        ensures
            all == (forall|p: int|
                0 <= p < self@.players() ==> #[trigger] self@.sync.dropped[p]),
    {
        self.sync.all_players_dropped()
    }
}

} // verus!
