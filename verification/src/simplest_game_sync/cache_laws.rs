//! What the caches promise: a client that mirrors them reads every combined
//! frame back exactly.

use vstd::prelude::*;
#[allow(unused_imports)]
use crate::bytes_util::zeros;
#[allow(unused_imports)]
use super::cached::{lemma_after_input_keeps, lemma_after_responses_keeps, CachedModel};
#[allow(unused_imports)]
use super::delayed::DelayedModel;
#[allow(unused_imports)]
use super::input_cache::{
    cache_find, cache_push, lemma_newest_position_unique, newest_position, CACHE_SLOTS,
};
#[allow(unused_imports)]
use super::lockstep_laws::outputs_to;
#[allow(unused_imports)]
use super::types::{CachedOutputModel, InputModel, OutputModel, ResponseModel};

verus! {

/// What a client reads from a response, given the cache it keeps.
pub open spec fn client_reads(mirror: Seq<Seq<u8>>, response: ResponseModel) -> Seq<u8> {
    match response {
        ResponseModel::GameData(data) => data,
        ResponseModel::GameCache(pos) => mirror[pos as int],
    }
}

/// A client's cache after a response: it adds the game data it is sent.
pub open spec fn client_keeps(mirror: Seq<Seq<u8>>, response: ResponseModel) -> Seq<Seq<u8>> {
    match response {
        ResponseModel::GameData(data) => cache_push(mirror, data),
        ResponseModel::GameCache(_) => mirror,
    }
}

/// A client's cache after the responses addressed to player `p`.
pub open spec fn mirror_after(
    mirror: Seq<Seq<u8>>,
    responses: Seq<CachedOutputModel>,
    p: int,
) -> Seq<Seq<u8>>
    decreases responses.len(),
{
    if responses.len() == 0 {
        mirror
    } else {
        let before = mirror_after(mirror, responses.drop_last(), p);
        if responses.last().player_id == p {
            client_keeps(before, responses.last().response)
        } else {
            before
        }
    }
}

/// What player `p`'s client reads from these responses.
pub open spec fn client_stream(
    mirror: Seq<Seq<u8>>,
    responses: Seq<CachedOutputModel>,
    p: int,
) -> Seq<Seq<u8>>
    decreases responses.len(),
{
    if responses.len() == 0 {
        Seq::empty()
    } else {
        let before = client_stream(mirror, responses.drop_last(), p);
        if responses.last().player_id == p {
            before.push(
                client_reads(
                    mirror_after(mirror, responses.drop_last(), p),
                    responses.last().response,
                ),
            )
        } else {
            before
        }
    }
}

/// A client's cache agrees with the server's cache for player `p`. With output
/// caching off nothing refers to a client's cache.
pub open spec fn mirrors(m: CachedModel, mirror: Seq<Seq<u8>>, p: int) -> bool {
    m.disable_output_cache || mirror == m.output_caches[p]
}

/// A position that a cache gives out for some bytes holds these bytes, and no
/// newer position does.
pub proof fn law_found_position_holds_the_bytes(cache: Seq<Seq<u8>>, data: Seq<u8>)
    requires
        cache.len() <= CACHE_SLOTS,
    ensures
        cache_find(cache, data) is Some <==> cache.contains(data),
        cache_find(cache, data) matches Some(pos) ==> newest_position(cache, data, pos as int),
{
    if cache.contains(data) {
        let pos = lemma_newest_exists(cache, data, cache.len());
        lemma_newest_position_unique(cache, data, pos);
    }
}

/// Bytes among the first `n` entries have a newest position there.
proof fn lemma_newest_exists(cache: Seq<Seq<u8>>, data: Seq<u8>, n: nat) -> (pos: int)
    requires
        n <= cache.len(),
        exists|i: int| 0 <= i < n && cache[i] == data,
        forall|i: int| n <= i < cache.len() ==> cache[i] != data,
    ensures
        newest_position(cache, data, pos),
    decreases n,
{
    if cache[n - 1] == data {
        n - 1
    } else {
        lemma_newest_exists(cache, data, (n - 1) as nat)
    }
}

/// What was added last is found at the newest position.
pub proof fn law_pushed_bytes_are_newest(cache: Seq<Seq<u8>>, data: Seq<u8>)
    requires
        cache.len() <= CACHE_SLOTS,
    ensures
        cache_find(cache_push(cache, data), data) == Some(
            (cache_push(cache, data).len() - 1) as u8,
        ),
{
    let after = cache_push(cache, data);
    assert(after[after.len() - 1] == data);
    assert(newest_position(after, data, after.len() - 1));
    lemma_newest_position_unique(after, data, after.len() - 1);
}

/// Adding to a full cache moves every position down by one and evicts the
/// oldest entry; adding to any other cache moves nothing.
pub proof fn law_push_shifts_positions(cache: Seq<Seq<u8>>, data: Seq<u8>, pos: int)
    requires
        cache.len() <= CACHE_SLOTS,
        0 <= pos < cache.len(),
    ensures
        cache.len() < CACHE_SLOTS ==> cache_push(cache, data)[pos] == cache[pos],
        cache.len() == CACHE_SLOTS && pos > 0 ==> cache_push(cache, data)[pos - 1] == cache[pos],
        cache_push(cache, data).len() <= CACHE_SLOTS,
{
}

/// One response. A client whose cache agrees with the server's reads exactly the
/// combined bytes, and the two caches agree afterwards.
pub proof fn law_client_reads_the_output(
    m: CachedModel,
    p: int,
    output: Seq<u8>,
    mirror: Seq<Seq<u8>>,
)
    requires
        m.wf(),
        0 <= p < m.players(),
        mirrors(m, mirror, p),
    ensures
        client_reads(mirror, m.response(p, output)) == output,
        mirrors(
            m.after_response(p, output),
            client_keeps(mirror, m.response(p, output)),
            p,
        ),
{
    if !m.disable_output_cache {
        assert(m.output_caches[p].len() <= CACHE_SLOTS);
        law_found_position_holds_the_bytes(m.output_caches[p], output);
    }
}

/// A stream of outputs. From caches that agree, every player's client reads
/// exactly the combined bytes addressed to it, in order, and the caches agree at
/// the end.
pub proof fn law_client_reads_every_output(
    m: CachedModel,
    outputs: Seq<OutputModel>,
    p: int,
    mirror: Seq<Seq<u8>>,
)
    requires
        m.wf(),
        0 <= p < m.players(),
        forall|i: int|
            0 <= i < outputs.len() ==> (#[trigger] outputs[i]).player_id < m.players(),
        mirrors(m, mirror, p),
    ensures
        client_stream(mirror, m.responses(outputs), p) == outputs_to(outputs, p),
        mirrors(
            m.after_responses(outputs),
            mirror_after(mirror, m.responses(outputs), p),
            p,
        ),
        m.responses(outputs).len() == outputs.len(),
    decreases outputs.len(),
{
    if outputs.len() > 0 {
        let front = outputs.drop_last();
        assert forall|i: int| 0 <= i < front.len() implies (#[trigger] front[i]).player_id
            < m.players() by {
            assert(front[i] == outputs[i]);
        }
        law_client_reads_every_output(m, front, p, mirror);
        lemma_after_responses_keeps(m, front);
        let last = outputs[outputs.len() - 1];
        assert(last.player_id < m.players());
        assert(m.responses(outputs).drop_last() =~= m.responses(front));
        let now = m.after_responses(front);
        let mirror_now = mirror_after(mirror, m.responses(front), p);
        if last.player_id == p {
            law_client_reads_the_output(now, p, last.output, mirror_now);
        } else {
            assert(now.after_response(last.player_id as int, last.output).output_caches[p]
                == now.output_caches[p]);
        }
    }
}

/// The whole pipeline. Whatever input a game receives, warmup or not, a client
/// that mirrors its cache reads exactly the zero frame of the warmup or the
/// combined bytes, and stays in agreement.
pub proof fn law_client_reads_the_game(
    m: DelayedModel,
    from: int,
    input: InputModel,
    p: int,
    mirror: Seq<Seq<u8>>,
)
    requires
        m.wf(),
        0 <= from < m.players(),
        0 <= p < m.players(),
        m.resolved(from, input) is Some,
        mirrors(m.inner, mirror, p),
    ensures
        ({
            let bytes = m.resolved(from, input)->0;
            let responses = m.input_responses(from, input);
            let data = InputModel::GameData(m.released(from, bytes));
            &&& client_stream(mirror, responses, p) == if m.warming_up(from) {
                if p == from {
                    seq![zeros(m.zero_frame_len(bytes))]
                } else {
                    Seq::empty()
                }
            } else {
                outputs_to(m.inner.raw_outputs(from, data), p)
            }
            &&& mirrors(
                m.after_input(from, input).inner,
                mirror_after(mirror, responses, p),
                p,
            )
        }),
{
    let bytes = m.resolved(from, input)->0;
    let responses = m.input_responses(from, input);
    if m.warming_up(from) {
        let zero = zeros(m.zero_frame_len(bytes));
        let front = responses.drop_last();
        assert(front.len() == 0);
        assert(client_stream(mirror, front, p) =~= Seq::empty());
        assert(mirror_after(mirror, front, p) == mirror);
        assert(from as usize == from);
        assert(responses.last().player_id == from);
        if p == from {
            law_client_reads_the_output(m.inner, p, zero, mirror);
            assert(client_stream(mirror, responses, p) =~= seq![zero]);
        }
    } else {
        let data = InputModel::GameData(m.released(from, bytes));
        lemma_after_input_keeps(m.inner, from, data);
        assert(mirrors(m.inner.combined(from, data), mirror, p));
        law_client_reads_every_output(
            m.inner.combined(from, data),
            m.inner.raw_outputs(from, data),
            p,
            mirror,
        );
    }
}

/// A cache position does what the bytes it stands for would do: the same rounds
/// are played and the same responses are sent.
pub proof fn law_cache_position_equals_its_bytes(m: CachedModel, p: int, pos: u8)
    requires
        m.wf(),
        0 <= p < m.players(),
        pos < m.input_caches[p].len(),
    ensures
        ({
            let data = InputModel::GameData(m.input_caches[p][pos as int]);
            let position = InputModel::GameCache(pos);
            &&& m.after_input(p, position).sync == m.after_input(p, data).sync
            &&& m.after_input(p, position).output_caches == m.after_input(p, data).output_caches
            &&& m.input_responses(p, position) == m.input_responses(p, data)
        }),
{
    let data = InputModel::GameData(m.input_caches[p][pos as int]);
    let position = InputModel::GameCache(pos);
    lemma_same_outputs(
        m.combined(p, position),
        m.combined(p, data),
        m.raw_outputs(p, data),
    );
}

/// How outputs travel depends only on the output caches and the output mode.
pub proof fn lemma_same_outputs(a: CachedModel, b: CachedModel, outputs: Seq<OutputModel>)
    requires
        a.sync == b.sync,
        a.output_caches == b.output_caches,
        a.disable_output_cache == b.disable_output_cache,
    ensures
        a.after_responses(outputs).sync == b.after_responses(outputs).sync,
        a.after_responses(outputs).output_caches == b.after_responses(outputs).output_caches,
        a.after_responses(outputs).disable_output_cache == b.after_responses(
            outputs,
        ).disable_output_cache,
        a.responses(outputs) == b.responses(outputs),
        a.responses_evict(outputs) == b.responses_evict(outputs),
        a.responses_milestone(outputs) == b.responses_milestone(outputs),
    decreases outputs.len(),
{
    if outputs.len() > 0 {
        lemma_same_outputs(a, b, outputs.drop_last());
    }
}

/// With output caching off, every output travels as full game data and no output
/// cache changes.
pub proof fn law_disabled_cache_sends_game_data(m: CachedModel, outputs: Seq<OutputModel>)
    requires
        m.disable_output_cache,
    ensures
        m.responses(outputs) == outputs.map_values(
            |o: OutputModel|
                CachedOutputModel {
                    player_id: o.player_id,
                    response: ResponseModel::GameData(o.output),
                },
        ),
        m.after_responses(outputs) == m,
        !m.responses_evict(outputs),
        m.responses_milestone(outputs) is None,
    decreases outputs.len(),
{
    let full = |o: OutputModel|
        CachedOutputModel {
            player_id: o.player_id,
            response: ResponseModel::GameData(o.output),
        };
    if outputs.len() > 0 {
        let front = outputs.drop_last();
        law_disabled_cache_sends_game_data(m, front);
        assert(outputs.map_values(full) =~= front.map_values(full).push(full(outputs.last())));
    }
    assert(m.responses(outputs) =~= outputs.map_values(full));
}

/// An input of a dropped player plays no round and sends nothing.
pub proof fn law_dropped_player_is_ignored(m: CachedModel, p: int, input: InputModel)
    requires
        m.wf(),
        0 <= p < m.players(),
        m.sync.dropped[p],
        m.resolved(p, input) is Some,
    ensures
        m.after_input(p, input).sync == m.sync,
        m.after_input(p, input).output_caches == m.output_caches,
        m.input_responses(p, input) == Seq::<CachedOutputModel>::empty(),
{
}

} // verus!
