//! The 256-slot FIFO cache that client and server mirror.

use std::collections::VecDeque;
use vstd::prelude::*;
use crate::bytes_util::bytes_equal;

verus! {

/// Number of slots of a cache; positions fit in one byte.
pub const CACHE_SLOTS: usize = 256;

/// The cache after `data` is added: the oldest entry leaves a full cache.
pub open spec fn cache_push(cache: Seq<Seq<u8>>, data: Seq<u8>) -> Seq<Seq<u8>> {
    if cache.len() >= CACHE_SLOTS {
        cache.skip(1).push(data)
    } else {
        cache.push(data)
    }
}

/// `pos` is the newest position at which `data` stands.
pub open spec fn newest_position(cache: Seq<Seq<u8>>, data: Seq<u8>, pos: int) -> bool {
    &&& 0 <= pos < cache.len()
    &&& cache[pos] == data
    &&& forall|later: int| pos < later < cache.len() ==> cache[later] != data
}

/// The newest position of `data`, if it is in the cache.
pub open spec fn cache_find(cache: Seq<Seq<u8>>, data: Seq<u8>) -> Option<u8> {
    if cache.contains(data) {
        Some((choose|pos: int| newest_position(cache, data, pos)) as u8)
    } else {
        None
    }
}

/// FIFO cache with 256 slots. Positions are logical: 0 is the oldest entry,
/// `len() - 1` the newest.
#[derive(Debug, Clone)]
pub struct InputCache {
    slots: VecDeque<Vec<u8>>,
}

impl View for InputCache {
    type V = Seq<Seq<u8>>;

    /// The entries, oldest first.
    closed spec fn view(&self) -> Seq<Seq<u8>> {
        self.slots@.map_values(|slot: Vec<u8>| slot@)
    }
}

impl Default for InputCache {
    fn default() -> (cache: Self)
        ensures
            cache.wf(),
            cache@ == Seq::<Seq<u8>>::empty(),
    {
        Self::new()
    }
}

impl InputCache {
    /// Never more entries than slots.
    pub open spec fn wf(&self) -> bool {
        self@.len() <= CACHE_SLOTS
    }

    /// An empty cache.
    pub fn new() -> (cache: Self)
        ensures
            cache.wf(),
            cache@ == Seq::<Seq<u8>>::empty(),
    {
        let cache = Self { slots: VecDeque::with_capacity(CACHE_SLOTS) };
        assert(cache@ =~= Seq::<Seq<u8>>::empty());
        cache
    }

    /// The newest logical position at which `data` stands.
    pub fn find(&self, data: &[u8]) -> (found: Option<u8>)
        requires
            self.wf(),
        ensures
            found == cache_find(self@, data@),
            found is Some <==> self@.contains(data@),
            found matches Some(pos) ==> newest_position(self@, data@, pos as int),
    {
        let mut i: usize = self.slots.len();
        while i > 0
            invariant
                i <= self.slots@.len(),
                self.wf(),
                forall|j: int| i <= j < self.slots@.len() ==> self.slots@[j]@ != data@,
            decreases i,
        {
            i -= 1;
            if bytes_equal(self.slots[i].as_slice(), data) {
                proof {
                    assert(newest_position(self@, data@, i as int));
                    assert(self@[i as int] == data@);
                    lemma_newest_position_unique(self@, data@, i as int);
                }
                return Some(i as u8);
            }
        }
        assert(!self@.contains(data@));
        None
    }

    /// Adds `data`, evicting the oldest entry of a full cache. Returns whether
    /// an entry was evicted.
    pub fn push(&mut self, data: Vec<u8>) -> (evicted: bool)
        requires
            old(self).wf(),
        ensures
            final(self).wf(),
            final(self)@ == cache_push(old(self)@, data@),
            evicted == (old(self)@.len() == CACHE_SLOTS),
    {
        let evicted = if self.slots.len() >= CACHE_SLOTS {
            let _ = self.slots.pop_front();
            true
        } else {
            false
        };
        self.slots.push_back(data);
        assert(self@ =~= cache_push(old(self)@, data@));
        evicted
    }

    /// The entry at a logical position.
    pub fn get(&self, pos: u8) -> (entry: Option<&[u8]>)
        ensures
            match entry {
                Some(data) => pos < self@.len() && data@ == self@[pos as int],
                None => pos >= self@.len(),
            },
    {
        if (pos as usize) < self.slots.len() {
            Some(self.slots[pos as usize].as_slice())
        } else {
            None
        }
    }

    /// Number of entries.
    pub fn len(&self) -> (n: usize)
        ensures
            n == self@.len(),
    {
        self.slots.len()
    }

    /// Whether there are no entries.
    pub fn is_empty(&self) -> (empty: bool)
        ensures
            empty == (self@.len() == 0),
    {
        self.slots.len() == 0
    }
}

/// There is only one newest position, so `cache_find` names it.
pub proof fn lemma_newest_position_unique(cache: Seq<Seq<u8>>, data: Seq<u8>, pos: int)
    requires
        newest_position(cache, data, pos),
        cache.len() <= CACHE_SLOTS,
    ensures
        cache.contains(data),
        cache_find(cache, data) == Some(pos as u8),
{
    assert(cache[pos] == data);
    let chosen = choose|p: int| newest_position(cache, data, p);
    assert(newest_position(cache, data, chosen));
    assert(chosen == pos);
}

} // verus!
