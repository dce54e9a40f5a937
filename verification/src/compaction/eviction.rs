//! Keeping the payload cache of cold segments within its budget.
use crate::num::monus;
use crate::num::sat_size;
use crate::sort::is_order;
use crate::sort::order_of;
use crate::sort::SortKey;
use vstd::prelude::*;

verus! {

/// Cached bytes of a table, larger ones first.
#[derive(Debug, Clone, Copy, PartialEq, Eq, Structural)]
pub struct CacheSize {
    pub bytes: usize,
}

impl SortKey for CacheSize {
    open spec fn leq(self, other: Self) -> bool {
        self.bytes >= other.bytes
    }

    proof fn lemma_total(a: Self, b: Self) {
    }

    proof fn lemma_transitive(a: Self, b: Self, c: Self) {
    }

    fn is_leq(&self, other: &Self) -> (r: bool) {
        self.bytes >= other.bytes
    }
}

pub open spec fn cache_sizes(bytes: Seq<usize>) -> Seq<CacheSize> {
    bytes.map_values(|b: usize| CacheSize { bytes: b })
}

/// Cached bytes of the first `n` tables.
pub open spec fn cached_bytes(bytes: Seq<usize>, n: int) -> int
    decreases n,
{
    if n <= 0 {
        0
    } else {
        sat_size(cached_bytes(bytes, n - 1) + bytes[n - 1])
    }
}

/// A pass over the caches of all tables.
#[derive(Debug)]
pub struct EvictionPass {
    pub to_free: usize,
    /// Tables in the order in which they give way, largest cache first.
    pub order: Vec<usize>,
}

impl EvictionPass {
    /// Starts with what exceeds the budget.
    pub fn new(bytes: &Vec<usize>, max_cache_bytes: usize) -> (r: Self)
        ensures
            r.to_free == monus(
                cached_bytes(bytes@, bytes@.len() as int),
                max_cache_bytes as int,
            ),
            is_order(cache_sizes(bytes@), r.order@),
    {
        let mut total: usize = 0;
        let mut sizes: Vec<CacheSize> = Vec::new();
        let mut i: usize = 0;
        while i < bytes.len()
            invariant
                0 <= i <= bytes@.len(),
                total == cached_bytes(bytes@, i as int),
                sizes@ == cache_sizes(bytes@).take(i as int),
            decreases bytes@.len() - i,
        {
            total = total.saturating_add(bytes[i]);
            sizes.push(CacheSize { bytes: bytes[i] });
            i = i + 1;
            assert(sizes@ =~= cache_sizes(bytes@).take(i as int));
        }
        assert(sizes@ =~= cache_sizes(bytes@));
        EvictionPass { to_free: total.saturating_sub(max_cache_bytes), order: order_of(sizes) }
    }

    /// How many bytes a table may keep. Once nothing is left to free, every
    /// table keeps all; it is still visited, so that its idle time counts.
    pub fn target(&self, table_cache_bytes: usize) -> (r: usize)
        ensures
            r == (if self.to_free == 0 {
                usize::MAX as int
            } else {
                monus(table_cache_bytes as int, self.to_free as int)
            }),
    {
        if self.to_free == 0 {
            usize::MAX
        } else {
            table_cache_bytes.saturating_sub(self.to_free)
        }
    }

    /// Notes what a table gave back.
    pub fn freed(&mut self, bytes: usize)
        ensures
            final(self).to_free == monus(old(self).to_free as int, bytes as int),
            final(self).order@ == old(self).order@,
    {
        self.to_free = self.to_free.saturating_sub(bytes);
    }
}

/// A table is never asked to give back more than is still to free.
pub proof fn law_eviction_is_bounded(to_free: usize, table_cache_bytes: usize)
    ensures
        table_cache_bytes - monus(table_cache_bytes as int, to_free as int) <= to_free,
{
}

} // verus!
