//! Replay-owned hierarchical cache state. Device events update it as they
//! become visible; routing probes never change it.

use crate::geometry::{
    no_components, ComponentMask, BYTES_PER_GIB, DSV4_C128_BYTES_PER_PAGE, DSV4_C4_BYTES_PER_PAGE,
    DSV4_C4_INDEXER_BYTES_PER_PAGE, DSV4_C4_INDEXER_STATE_BYTES_PER_PAGE,
    DSV4_C4_STATE_BYTES_PER_PAGE, DSV4_FULL_BUNDLE_BYTES_PER_PAGE, DSV4_GEOMETRY_ID,
    DSV4_REGULAR_BYTES_PER_PAGE, DSV4_SWA_BYTES_PER_PAGE, DSV4_TRAILING_BYTES_PER_PAGE,
};
use crate::facts::l3_serves;
use crate::hicache_model::{lemma_page_tokens_add, min_int, HiCacheModel};
use crate::l2_model::L2Model;
use crate::l3_effects::law_prefix_is_farthest;
use crate::prefix::{lemma_nothing_usable, lemma_usable_prefix_bounds};
use crate::protocols::{
    hash_values, stored_hashes, ExternalSequenceBlockHash, HitRange, KvCacheEventData,
    KvCacheRemoveData, KvCacheStoreData, RouterEvent, SglangHiCacheArgs, SglangHiCacheWritePolicy,
    SharedCacheHits, StorageTier, WorkerWithDpRank,
};
use crate::shared_l3::{SglangL3Report, SharedL3};
use crate::worker_l2::WorkerL2;
use vstd::prelude::*;

verus! {

/// Configuration, page geometry and counters of the hierarchy. The hit rates
/// follow from the token counts and are not part of it.
#[derive(Clone, Debug, PartialEq)]
pub struct SglangHiCacheReport {
    pub geometry_id: String,
    pub write_policy: SglangHiCacheWritePolicy,
    pub page_size_tokens: usize,
    pub l1_swa_capacity_tokens_per_worker: usize,
    pub l2_full_capacity_tokens_per_worker: usize,
    pub l2_swa_capacity_tokens_per_worker: usize,
    pub io_tokens_per_second: u64,
    pub c4_bytes_per_page: u64,
    pub c4_indexer_bytes_per_page: u64,
    pub c128_bytes_per_page: u64,
    pub swa_bytes_per_page: u64,
    pub c4_state_bytes_per_page: u64,
    pub c4_indexer_state_bytes_per_page: u64,
    pub regular_bytes_per_page: u64,
    pub trailing_bytes_per_page: u64,
    pub full_bundle_bytes_per_page: u64,
    pub workers_with_l2_state: usize,
    pub final_l2_full_pages: usize,
    pub final_l2_swa_pages: usize,
    pub d2h_tokens: u64,
    pub h2d_tokens: u64,
    pub total_host_io_tokens: u64,
    /// Prompt tokens reusable on the selected worker right after the lower
    /// tiers have been read.
    pub route_input_tokens: u64,
    pub route_reused_tokens: u64,
    pub route_recomputed_tokens: u64,
    /// Reuse that was left at the request's first admission.
    pub admission_input_tokens: u64,
    pub admission_reused_tokens: u64,
    pub admission_recomputed_tokens: u64,
    pub l3_prefetched_pages: u64,
    pub l3: SglangL3Report,
}

impl SglangHiCacheReport {
    /// The report shows the configuration, the page geometry and the counters
    /// of `m`. Reads from the host and the token counts of routing and
    /// admission are not known here and stand at zero.
    pub open spec fn shows(self, m: HiCacheModel) -> bool {
        &&& self.geometry_id@ == DSV4_GEOMETRY_ID@
        &&& self.write_policy == m.config.write_policy
        &&& self.page_size_tokens == m.page_size
        &&& self.l1_swa_capacity_tokens_per_worker == m.config.l1_swa_capacity_tokens
        &&& self.l2_full_capacity_tokens_per_worker == m.config.l2_full_capacity_tokens
        &&& self.l2_swa_capacity_tokens_per_worker == m.config.l2_swa_capacity_tokens
        &&& self.io_tokens_per_second == m.config.io_tokens_per_second
        &&& self.c4_bytes_per_page == DSV4_C4_BYTES_PER_PAGE
        &&& self.c4_indexer_bytes_per_page == DSV4_C4_INDEXER_BYTES_PER_PAGE
        &&& self.c128_bytes_per_page == DSV4_C128_BYTES_PER_PAGE
        &&& self.swa_bytes_per_page == DSV4_SWA_BYTES_PER_PAGE
        &&& self.c4_state_bytes_per_page == DSV4_C4_STATE_BYTES_PER_PAGE
        &&& self.c4_indexer_state_bytes_per_page == DSV4_C4_INDEXER_STATE_BYTES_PER_PAGE
        &&& self.regular_bytes_per_page == DSV4_REGULAR_BYTES_PER_PAGE
        &&& self.trailing_bytes_per_page == DSV4_TRAILING_BYTES_PER_PAGE
        &&& self.full_bundle_bytes_per_page == DSV4_FULL_BUNDLE_BYTES_PER_PAGE
        &&& self.workers_with_l2_state == m.workers.dom().len()
        &&& self.final_l2_full_pages == m.total_full_pages()
        &&& self.final_l2_swa_pages == m.total_swa_pages()
        &&& self.d2h_tokens == m.d2h_tokens
        &&& self.h2d_tokens == 0
        &&& self.total_host_io_tokens == m.d2h_tokens
        &&& self.route_input_tokens == 0
        &&& self.route_reused_tokens == 0
        &&& self.route_recomputed_tokens == 0
        &&& self.admission_input_tokens == 0
        &&& self.admission_reused_tokens == 0
        &&& self.admission_recomputed_tokens == 0
        &&& self.l3_prefetched_pages == m.l3_prefetched_pages
        &&& self.l3.shows(m.l3)
    }
}

#[derive(Debug)]
struct WorkerEntry {
    worker: WorkerWithDpRank,
    l2: WorkerL2,
}

#[derive(Debug)]
pub struct SglangHiCacheState {
    config: SglangHiCacheArgs,
    page_size: usize,
    workers: Vec<WorkerEntry>,
    l3: SharedL3,
    d2h_tokens: u64,
    l3_prefetched_pages: u64,
}

spec fn is_at(entries: Seq<WorkerEntry>, worker: WorkerWithDpRank, i: int) -> bool {
    0 <= i < entries.len() && entries[i].worker == worker
}

/// The host tiers by worker rank.
spec fn worker_map(entries: Seq<WorkerEntry>) -> Map<WorkerWithDpRank, L2Model> {
    Map::new(
        |w: WorkerWithDpRank| exists|i: int| is_at(entries, w, i),
        |w: WorkerWithDpRank| entries[choose|i: int| is_at(entries, w, i)].l2@,
    )
}

/// No worker rank is listed twice.
spec fn distinct(entries: Seq<WorkerEntry>) -> bool {
    forall|i: int, j: int|
        0 <= i < j < entries.len() ==> (#[trigger] entries[i]).worker != (
        #[trigger] entries[j]).worker
}

proof fn lemma_worker_at(entries: Seq<WorkerEntry>, i: int)
    requires
        distinct(entries),
        0 <= i < entries.len(),
    ensures
        worker_map(entries).contains_key(entries[i].worker),
        worker_map(entries)[entries[i].worker] == entries[i].l2@,
{
    let w = entries[i].worker;
    assert(is_at(entries, w, i));
    let j = choose|j: int| is_at(entries, w, j);
    assert(is_at(entries, w, j));
}

/// Replacing the tier of a listed rank changes the map at that rank alone.
proof fn lemma_worker_updated(before: Seq<WorkerEntry>, after: Seq<WorkerEntry>, i: int)
    requires
        distinct(before),
        0 <= i < before.len(),
        after.len() == before.len(),
        after[i].worker == before[i].worker,
        forall|j: int| 0 <= j < before.len() && j != i ==> after[j] == before[j],
    ensures
        distinct(after),
        worker_map(after) == worker_map(before).insert(before[i].worker, after[i].l2@),
{
    assert forall|j: int| 0 <= j < before.len() implies (#[trigger] after[j]).worker
        == before[j].worker by {}
    assert(distinct(after));
    let a = worker_map(after);
    let b = worker_map(before).insert(before[i].worker, after[i].l2@);
    assert forall|w: WorkerWithDpRank| a.contains_key(w) <==> b.contains_key(w) by {
        if a.contains_key(w) {
            let j = choose|j: int| is_at(after, w, j);
            assert(is_at(before, w, j));
        }
        if worker_map(before).contains_key(w) {
            let j = choose|j: int| is_at(before, w, j);
            assert(is_at(after, w, j));
        }
        lemma_worker_at(after, i);
    }
    assert forall|w: WorkerWithDpRank| a.contains_key(w) implies a[w] == b[w] by {
        let j = choose|j: int| is_at(after, w, j);
        lemma_worker_at(after, j);
        lemma_worker_at(before, j);
    }
    assert(a =~= b);
}

/// Listing a new rank adds it to the map.
proof fn lemma_worker_pushed(before: Seq<WorkerEntry>, entry: WorkerEntry)
    requires
        distinct(before),
        !worker_map(before).contains_key(entry.worker),
    ensures
        distinct(before.push(entry)),
        worker_map(before.push(entry)) == worker_map(before).insert(entry.worker, entry.l2@),
{
    let after = before.push(entry);
    assert forall|i: int| 0 <= i < before.len() implies (#[trigger] before[i]).worker
        != entry.worker by {
        assert(is_at(before, before[i].worker, i));
    }
    assert(distinct(after));
    let a = worker_map(after);
    let b = worker_map(before).insert(entry.worker, entry.l2@);
    assert forall|w: WorkerWithDpRank| a.contains_key(w) <==> b.contains_key(w) by {
        if a.contains_key(w) {
            let j = choose|j: int| is_at(after, w, j);
            if j < before.len() {
                assert(is_at(before, w, j));
            }
        }
        if worker_map(before).contains_key(w) {
            let j = choose|j: int| is_at(before, w, j);
            assert(is_at(after, w, j));
        }
        lemma_worker_at(after, before.len() as int);
    }
    assert forall|w: WorkerWithDpRank| a.contains_key(w) implies a[w] == b[w] by {
        let j = choose|j: int| is_at(after, w, j);
        lemma_worker_at(after, j);
        if j < before.len() {
            lemma_worker_at(before, j);
        }
    }
    assert(a =~= b);
}

/// The map has as many ranks as are listed.
proof fn lemma_worker_count(entries: Seq<WorkerEntry>)
    requires
        distinct(entries),
    ensures
        worker_map(entries).dom().finite(),
        worker_map(entries).dom().len() == entries.len(),
    decreases entries.len(),
{
    if entries.len() == 0 {
        assert forall|w: WorkerWithDpRank| !worker_map(entries).contains_key(w) by {
            if exists|i: int| is_at(entries, w, i) {
                let i = choose|i: int| is_at(entries, w, i);
                assert(is_at(entries, w, i));
            }
        }
        assert(worker_map(entries).dom() =~= Set::<WorkerWithDpRank>::empty());
    } else {
        let rest = entries.drop_last();
        lemma_worker_count(rest);
        assert(!worker_map(rest).contains_key(entries.last().worker)) by {
            if exists|i: int| is_at(rest, entries.last().worker, i) {
                let i = choose|i: int| is_at(rest, entries.last().worker, i);
                assert(is_at(rest, entries.last().worker, i));
            }
        }
        lemma_worker_pushed(rest, entries.last());
        assert(rest.push(entries.last()) =~= entries);
    }
}

/// Counting one more listed rank.
proof fn lemma_count_sums(m: HiCacheModel, entries: Seq<WorkerEntry>, i: int)
    requires
        distinct(entries),
        m.workers == worker_map(entries),
        0 <= i <= entries.len(),
    ensures
        i == 0 ==> m.full_sum(worker_map(entries.take(i)).dom()) == 0,
        i == 0 ==> m.swa_sum(worker_map(entries.take(i)).dom()) == 0,
        i < entries.len() ==> m.full_sum(worker_map(entries.take(i + 1)).dom()) == m.full_sum(
            worker_map(entries.take(i)).dom(),
        ) + entries[i].l2@.full_pages().len(),
        i < entries.len() ==> m.swa_sum(worker_map(entries.take(i + 1)).dom()) == m.swa_sum(
            worker_map(entries.take(i)).dom(),
        ) + entries[i].l2@.swa_pages().len(),
{
    let seen = entries.take(i);
    lemma_worker_count(seen);
    if i == 0 {
        worker_map(seen).dom().lemma_len0_is_empty();
        m.lemma_sums_step(Set::empty(), None);
    }
    if i < entries.len() {
        let entry = entries[i];
        assert(!worker_map(seen).contains_key(entry.worker)) by {
            if exists|j: int| is_at(seen, entry.worker, j) {
                let j = choose|j: int| is_at(seen, entry.worker, j);
                assert(seen[j] == entries[j]);
            }
        }
        lemma_worker_pushed(seen, entry);
        assert(seen.push(entry) =~= entries.take(i + 1));
        lemma_worker_at(entries, i);
        m.lemma_sums_step(worker_map(seen).dom(), Some(entry.worker));
        assert(worker_map(entries.take(i + 1)).dom() =~= worker_map(seen).dom().insert(
            entry.worker,
        ));
    }
}

/// The count over some listed ranks is not above the count over all.
proof fn lemma_sums_grow(m: HiCacheModel, entries: Seq<WorkerEntry>, i: int)
    requires
        distinct(entries),
        m.workers == worker_map(entries),
        0 <= i <= entries.len(),
    ensures
        m.full_sum(worker_map(entries.take(i)).dom()) <= m.total_full_pages(),
        m.swa_sum(worker_map(entries.take(i)).dom()) <= m.total_swa_pages(),
    decreases entries.len() - i,
{
    if i < entries.len() {
        lemma_count_sums(m, entries, i);
        lemma_sums_grow(m, entries, i + 1);
    } else {
        assert(entries.take(i) =~= entries);
    }
}

impl View for SglangHiCacheState {
    type V = HiCacheModel;

    closed spec fn view(&self) -> HiCacheModel {
        HiCacheModel {
            config: self.config,
            page_size: self.page_size,
            workers: worker_map(self.workers@),
            l3: self.l3@,
            d2h_tokens: self.d2h_tokens,
            l3_prefetched_pages: self.l3_prefetched_pages,
        }
    }
}

impl SglangHiCacheState {
    pub closed spec fn wf(&self) -> bool {
        &&& self@.inv()
        &&& self.l3.wf()
        &&& distinct(self.workers@)
        &&& forall|i: int| 0 <= i < self.workers@.len() ==> (#[trigger] self.workers@[i]).l2.wf()
    }

    pub proof fn lemma_wf_inv(&self)
        requires
            self.wf(),
        ensures
            self@.inv(),
    {
    }

    fn find(&self, worker: WorkerWithDpRank) -> (found: Option<usize>)
        requires
            self.wf(),
        ensures
            match found {
                Some(i) => i < self.workers@.len() && self.workers@[i as int].worker == worker,
                None => !self@.workers.contains_key(worker),
            },
    {
        let mut i: usize = 0;
        while i < self.workers.len()
            invariant
                i <= self.workers@.len(),
                forall|j: int| 0 <= j < i ==> (#[trigger] self.workers@[j]).worker != worker,
            decreases self.workers@.len() - i,
        {
            if self.workers[i].worker == worker {
                return Some(i);
            }
            i = i + 1;
        }
        proof {
            if exists|j: int| is_at(self.workers@, worker, j) {
                let j = choose|j: int| is_at(self.workers@, worker, j);
                assert(is_at(self.workers@, worker, j));
            }
        }
        None
    }

    /// The host tier of a worker rank, which starts empty at the first use.
    pub fn worker_mut(&mut self, worker: WorkerWithDpRank) -> (l2: &mut WorkerL2)
        requires
            old(self).wf(),
            old(self)@.page_size > 0,
        ensures
            l2.wf(),
            l2@ == old(self)@.worker(worker),
            old(self)@.admits_l2(l2@),
            final(self)@ == old(self)@.with_worker(worker, final(l2)@),
            final(l2).wf() && old(self)@.admits_l2(final(l2)@) ==> final(self).wf(),
    {
        let index = match self.find(worker) {
            Some(i) => {
                proof {
                    lemma_worker_at(self.workers@, i as int);
                }
                i
            },
            None => {
                let l2 = WorkerL2::new(&self.config, self.page_size);
                let entry = WorkerEntry { worker, l2 };
                proof {
                    l2.lemma_wf_inv();
                    lemma_worker_pushed(self.workers@, entry);
                    lemma_worker_at(self.workers@.push(entry), self.workers@.len() as int);
                }
                self.workers.push(entry);
                self.workers.len() - 1
            },
        };
        proof {
            let m = old(self)@;
            let listed = self.workers@;
            assert forall|e: WorkerEntry| e.worker == worker implies {
                let after = #[trigger] listed.update(index as int, e);
                &&& distinct(after)
                &&& worker_map(after) =~= m.workers.insert(worker, e.l2@)
            } by {
                lemma_worker_updated(listed, listed.update(index as int, e), index as int);
            }
        }
        &mut self.workers[index].l2
    }

    pub fn new(config: SglangHiCacheArgs, page_size: usize) -> (state: Self)
        requires
            config.l3_capacity_gib * BYTES_PER_GIB <= u64::MAX,
        ensures
            state.wf(),
            state@ == HiCacheModel::fresh(
                config,
                page_size,
                (config.l3_capacity_gib * BYTES_PER_GIB) as u64,
            ),
    {
        let capacity_bytes: u64 = config.l3_capacity_gib * BYTES_PER_GIB;
        let state = SglangHiCacheState {
            config,
            page_size,
            workers: Vec::new(),
            l3: SharedL3::new(capacity_bytes),
            d2h_tokens: 0,
            l3_prefetched_pages: 0,
        };
        proof {
            state.l3.lemma_wf_inv();
            lemma_worker_count(state.workers@);
            assert(state@.workers.dom().len() == 0);
            state@.workers.dom().lemma_len0_is_empty();
            assert(state@.workers =~= Map::<WorkerWithDpRank, L2Model>::empty());
        }
        state
    }

    /// The shared tier.
    pub fn l3_mut(&mut self) -> (l3: &mut SharedL3)
        requires
            old(self).wf(),
        ensures
            l3.wf(),
            l3@ == old(self)@.l3,
            final(self)@ == (HiCacheModel { l3: final(l3)@, ..old(self)@ }),
            final(l3).wf() ==> final(self).wf(),
    {
        proof {
            assert forall|l3: SharedL3| #[trigger] l3.wf() implies l3@.inv() by {
                l3.lemma_wf_inv();
            }
        }
        &mut self.l3
    }

    /// Copies the offered groups of a page to a worker's host tier and on to the
    /// shared tier; returns the new device traffic in tokens.
    pub fn backup(
        &mut self,
        worker: WorkerWithDpRank,
        hash: ExternalSequenceBlockHash,
        components: ComponentMask,
    ) -> (tokens: usize)
        requires
            old(self).wf(),
            old(self)@.page_size > 0,
        ensures
            final(self).wf(),
            final(self)@ == old(self)@.backup(worker, hash.0, components),
            tokens == old(self)@.page_tokens(old(self)@.backup_adds(worker, hash.0, components)),
    {
        let ghost m = old(self)@;
        let l2 = self.worker_mut(worker);
        let outcome = l2.insert(hash, components);
        proof {
            l2.lemma_wf_inv();
            m.worker(worker).lemma_insert_keeps(hash.0, components);
        }
        if outcome.stored.regular {
            self.l3_mut().put(hash, outcome.stored);
        }
        assert(self@ =~= m.backup(worker, hash.0, components));
        if outcome.inserted_full {
            self.page_size
        } else {
            0
        }
    }

    /// The device stored `device` of each block, of which write-through copies
    /// `offered`.
    fn store_blocks(
        &mut self,
        worker: WorkerWithDpRank,
        store: &KvCacheStoreData,
        device: ComponentMask,
        offered: ComponentMask,
    ) -> (tokens: usize)
        requires
            old(self).wf(),
            old(self)@.page_size > 0 || store.blocks@.len() == 0,
            device != no_components(),
        ensures
            final(self).wf(),
            final(self)@ == old(self)@.store_blocks(worker, stored_hashes(*store), device, offered),
            tokens == old(self)@.page_tokens(
                old(self)@.store_blocks_adds(worker, stored_hashes(*store), device, offered),
            ),
    {
        let ghost start = self@;
        let ghost hashes = stored_hashes(*store);
        let mut tokens: usize = 0;
        let mut i: usize = 0;
        assert(hashes.take(0) =~= Seq::<u64>::empty());
        proof {
            lemma_page_tokens_add(start, 0, 0);
        }
        while i < store.blocks.len()
            invariant
                i <= store.blocks@.len(),
                device != no_components(),
                start.page_size > 0 || store.blocks@.len() == 0,
                hashes == stored_hashes(*store),
                self.wf(),
                self@ == start.store_blocks(worker, hashes.take(i as int), device, offered),
                self@.page_size == start.page_size,
                self@.config == start.config,
                tokens == start.page_tokens(
                    start.store_blocks_adds(worker, hashes.take(i as int), device, offered),
                ),
            decreases store.blocks@.len() - i,
        {
            let hash = store.blocks[i].block_hash;
            let ghost m = self@;
            let ghost longer = hashes.take(i + 1);
            proof {
                assert(longer.drop_last() =~= hashes.take(i as int));
                assert(longer.last() == hash.0);
            }
            let l2 = self.worker_mut(worker);
            l2.mark_device_stored(hash, device);
            proof {
                l2.lemma_wf_inv();
                m.worker(worker).lemma_device_ops_keep(hash.0, device);
                lemma_page_tokens_add(
                    start,
                    start.store_blocks_adds(worker, hashes.take(i as int), device, offered),
                    m.store_block_adds(worker, hash.0, device, offered),
                );
            }
            if self.config.write_policy == SglangHiCacheWritePolicy::WriteThrough {
                let added = self.backup(worker, hash, offered);
                tokens = tokens.saturating_add(added);
            }
            i = i + 1;
        }
        assert(hashes.take(i as int) =~= hashes);
        tokens
    }

    /// The device dropped pages; write-back copies what it had of them first.
    fn remove_blocks(
        &mut self,
        worker: WorkerWithDpRank,
        remove: &KvCacheRemoveData,
    ) -> (tokens: usize)
        requires
            old(self).wf(),
            old(self)@.page_size > 0 || remove.block_hashes@.len() == 0,
        ensures
            final(self).wf(),
            final(self)@ == old(self)@.remove_blocks(worker, hash_values(remove.block_hashes@)),
            tokens == old(self)@.page_tokens(
                old(self)@.remove_blocks_adds(worker, hash_values(remove.block_hashes@)),
            ),
    {
        let ghost start = self@;
        let ghost hashes = hash_values(remove.block_hashes@);
        let mut tokens: usize = 0;
        let mut i: usize = 0;
        assert(hashes.take(0) =~= Seq::<u64>::empty());
        proof {
            lemma_page_tokens_add(start, 0, 0);
        }
        while i < remove.block_hashes.len()
            invariant
                i <= remove.block_hashes@.len(),
                start.page_size > 0 || remove.block_hashes@.len() == 0,
                hashes == hash_values(remove.block_hashes@),
                self.wf(),
                self@ == start.remove_blocks(worker, hashes.take(i as int)),
                self@.page_size == start.page_size,
                self@.config == start.config,
                tokens == start.page_tokens(
                    start.remove_blocks_adds(worker, hashes.take(i as int)),
                ),
            decreases remove.block_hashes@.len() - i,
        {
            let hash = remove.block_hashes[i];
            let ghost m = self@;
            let ghost longer = hashes.take(i + 1);
            proof {
                assert(longer.drop_last() =~= hashes.take(i as int));
                assert(longer.last() == hash.0);
                lemma_page_tokens_add(
                    start,
                    start.remove_blocks_adds(worker, hashes.take(i as int)),
                    m.remove_block_adds(worker, hash.0),
                );
            }
            if self.config.write_policy == SglangHiCacheWritePolicy::WriteBack {
                let components = self.device_components(worker, hash);
                let added = self.backup(worker, hash, components);
                tokens = tokens.saturating_add(added);
            }
            let ghost saved = self@;
            let l2 = self.worker_mut(worker);
            l2.mark_device_removed(hash);
            proof {
                l2.lemma_wf_inv();
                saved.worker(worker).lemma_device_ops_keep(hash.0, no_components());
            }
            i = i + 1;
        }
        assert(hashes.take(i as int) =~= hashes);
        tokens
    }

    /// The device dropped the trailing groups of pages.
    fn remove_trailing_blocks(&mut self, worker: WorkerWithDpRank, remove: &KvCacheRemoveData)
        requires
            old(self).wf(),
            old(self)@.page_size > 0 || remove.block_hashes@.len() == 0,
        ensures
            final(self).wf(),
            final(self)@ == old(self)@.remove_trailing_blocks(
                worker,
                hash_values(remove.block_hashes@),
            ),
    {
        let ghost start = self@;
        let ghost hashes = hash_values(remove.block_hashes@);
        let mut i: usize = 0;
        assert(hashes.take(0) =~= Seq::<u64>::empty());
        while i < remove.block_hashes.len()
            invariant
                i <= remove.block_hashes@.len(),
                start.page_size > 0 || remove.block_hashes@.len() == 0,
                hashes == hash_values(remove.block_hashes@),
                self.wf(),
                self@ == start.remove_trailing_blocks(worker, hashes.take(i as int)),
                self@.page_size == start.page_size,
            decreases remove.block_hashes@.len() - i,
        {
            let hash = remove.block_hashes[i];
            let ghost m = self@;
            let ghost longer = hashes.take(i + 1);
            proof {
                assert(longer.drop_last() =~= hashes.take(i as int));
                assert(longer.last() == hash.0);
            }
            let l2 = self.worker_mut(worker);
            l2.mark_device_trailing_removed(hash);
            proof {
                l2.lemma_wf_inv();
                m.worker(worker).lemma_device_ops_keep(hash.0, no_components());
            }
            i = i + 1;
        }
        assert(hashes.take(i as int) =~= hashes);
    }

    /// The groups of a page that a worker's device holds.
    fn device_components(
        &self,
        worker: WorkerWithDpRank,
        hash: ExternalSequenceBlockHash,
    ) -> (components: ComponentMask)
        requires
            self.wf(),
        ensures
            components == self@.worker(worker).device(hash.0),
    {
        match self.find(worker) {
            Some(i) => {
                proof {
                    lemma_worker_at(self.workers@, i as int);
                }
                self.workers[i].l2.device_components(hash)
            },
            None => ComponentMask::default(),
        }
    }

    /// Whether an event reaches the host tier of its worker at all.
    pub fn event_reaches_worker(event: &RouterEvent) -> (reaches: bool)
        ensures
            reaches == HiCacheModel::reaches_worker(*event),
    {
        if !event.hicache_metadata && event.storage_tier != StorageTier::Device {
            return false;
        }
        match &event.event.data {
            KvCacheEventData::Stored(store) => store.blocks.len() > 0,
            KvCacheEventData::Removed(remove) => remove.block_hashes.len() > 0,
            KvCacheEventData::Cleared => !event.hicache_metadata,
        }
    }

    /// Applies one device event; returns the new device traffic in tokens. A
    /// page that is on the host already causes none.
    pub fn apply_router_event(&mut self, event: &RouterEvent) -> (tokens: usize)
        requires
            old(self).wf(),
            old(self)@.page_size > 0 || !HiCacheModel::reaches_worker(*event),
        ensures
            final(self).wf(),
            final(self)@ == old(self)@.apply_event(*event),
            tokens == old(self)@.event_tokens(*event),
    {
        let ghost start = self@;
        proof {
            lemma_page_tokens_add(start, 0, 0);
        }
        if !event.hicache_metadata && event.storage_tier != StorageTier::Device {
            assert(self@ =~= start.apply_event(*event));
            return 0;
        }
        let worker = WorkerWithDpRank::new(event.worker_id, event.event.dp_rank);
        let mut tokens: usize = 0;
        match &event.event.data {
            KvCacheEventData::Stored(store) => {
                if event.hicache_metadata {
                    let trailing = ComponentMask { regular: false, trailing: true };
                    tokens = self.store_blocks(worker, store, trailing, trailing);
                } else {
                    // Write-through serializes the complete page, though an
                    // ordinary event reports the regular group alone.
                    tokens = self.store_blocks(
                        worker,
                        store,
                        ComponentMask { regular: true, trailing: false },
                        ComponentMask { regular: true, trailing: true },
                    );
                }
            },
            KvCacheEventData::Removed(remove) => {
                if event.hicache_metadata {
                    self.remove_trailing_blocks(worker, remove);
                } else {
                    tokens = self.remove_blocks(worker, remove);
                }
            },
            KvCacheEventData::Cleared => {
                if !event.hicache_metadata {
                    let l2 = self.worker_mut(worker);
                    l2.clear_device();
                    proof {
                        l2.lemma_wf_inv();
                        start.worker(worker).lemma_device_ops_keep(0, no_components());
                    }
                }
            },
        }
        proof {
            start.lemma_after_event_frame(*event);
        }
        self.d2h_tokens = self.d2h_tokens.saturating_add(tokens as u64);
        tokens
    }

    /// How many pages after the first `device_blocks` a worker's host tier adds
    /// to what can be reused.
    pub fn l2_extension_blocks(
        &self,
        worker: WorkerWithDpRank,
        sequence: &[ExternalSequenceBlockHash],
        device_blocks: usize,
    ) -> (blocks: usize)
        requires
            self.wf(),
        ensures
            blocks == self@.worker(worker).extension(
                hash_values(sequence@),
                device_blocks as int,
            ),
    {
        match self.find(worker) {
            Some(i) => {
                proof {
                    lemma_worker_at(self.workers@, i as int);
                }
                self.workers[i].l2.extension_blocks(sequence, device_blocks)
            },
            None => {
                proof {
                    let l2 = self@.worker(worker);
                    lemma_nothing_usable(
                        l2.host_masks(hash_values(sequence@)),
                        device_blocks as int,
                    );
                }
                0
            },
        }
    }

    /// How many pages from the start a worker's device alone can serve.
    pub fn device_prefix_blocks(
        &self,
        worker: WorkerWithDpRank,
        sequence: &[ExternalSequenceBlockHash],
    ) -> (blocks: usize)
        requires
            self.wf(),
        ensures
            blocks == self@.worker(worker).device_prefix(hash_values(sequence@)),
    {
        match self.find(worker) {
            Some(i) => {
                proof {
                    lemma_worker_at(self.workers@, i as int);
                }
                self.workers[i].l2.device_prefix_blocks(sequence)
            },
            None => {
                proof {
                    let l2 = self@.worker(worker);
                    lemma_nothing_usable(l2.device_masks(hash_values(sequence@)), 0);
                }
                0
            },
        }
    }

    /// The block positions that the shared tier can serve: those of the
    /// reusable prefix.
    pub fn shared_hits(&self, sequence: &[ExternalSequenceBlockHash]) -> (hits: SharedCacheHits)
        ensures
            ({
                let prefix = self@.l3.prefix(hash_values(sequence@));
                let end = min_int(prefix, u32::MAX as int) as u32;
                &&& hits.total_hits == end
                &&& hits.ranges@ == if prefix == 0 {
                    Seq::<HitRange>::empty()
                } else {
                    seq![HitRange { start: 0, end }]
                }
            }),
            forall|k: int| #[trigger]
                l3_serves(self@.l3, hash_values(sequence@), k) ==> hits.total_hits >= k
                    || hits.total_hits == u32::MAX,
            0 < hits.total_hits < u32::MAX ==> l3_serves(
                self@.l3,
                hash_values(sequence@),
                hits.total_hits as int,
            ),
            hits.total_hits == 0 <==> hits.ranges@.len() == 0,
            hits.total_hits > 0 ==> hits.ranges@.len() == 1 && hits.ranges@[0].start == 0
                && hits.ranges@[0].end == hits.total_hits,
    {
        let prefix = self.l3.prefix_blocks(sequence);
        proof {
            let hashes = hash_values(sequence@);
            law_prefix_is_farthest(self@.l3, hashes, 0);
            assert forall|k: int| #[trigger] l3_serves(self@.l3, hashes, k) implies k <= prefix by {
                law_prefix_is_farthest(self@.l3, hashes, k);
            }
        }
        if prefix == 0 {
            SharedCacheHits { ranges: Vec::new(), total_hits: 0 }
        } else {
            let end: u32 = if prefix > u32::MAX as usize { u32::MAX } else { prefix as u32 };
            let mut ranges: Vec<HitRange> = Vec::new();
            ranges.push(HitRange { start: 0, end });
            assert(ranges@ =~= seq![HitRange { start: 0, end }]);
            SharedCacheHits { ranges, total_hits: end }
        }
    }

    /// Brings the selected prefix to a worker's host tier from the shared tier;
    /// returns how many of its pages the worker can serve then.
    pub fn prefetch_selected_prefix(
        &mut self,
        worker: WorkerWithDpRank,
        sequence: &[ExternalSequenceBlockHash],
        device_blocks: usize,
    ) -> (admitted: usize)
        requires
            old(self).wf(),
            device_blocks <= sequence.len(),
            old(self)@.page_size > 0 || (device_blocks == 0 && old(self)@.l3.prefix(
                hash_values(sequence@),
            ) == 0),
        ensures
            final(self).wf(),
            final(self)@ == old(self)@.prefetch(
                worker,
                hash_values(sequence@),
                device_blocks as int,
            ),
            admitted == old(self)@.admitted(worker, hash_values(sequence@), device_blocks as int),
    {
        let ghost start = self@;
        let ghost hashes = hash_values(sequence@);
        proof {
            lemma_usable_prefix_bounds(
                start.worker(worker).host_masks(hashes),
                device_blocks as int,
            );
            lemma_usable_prefix_bounds(start.l3.masks(hashes), 0);
            if start.page_size == 0 {
                lemma_nothing_usable(start.worker(worker).host_masks(hashes), 0);
            }
        }
        let local: usize = device_blocks + self.l2_extension_blocks(
            worker,
            sequence,
            device_blocks,
        );
        let shared: usize = self.l3.prefix_blocks(sequence);
        let target: usize = if local < shared { shared } else { local };
        if device_blocks > 0 {
            let hash = sequence[device_blocks - 1];
            let l2 = self.worker_mut(worker);
            l2.touch_device_boundary(hash);
            proof {
                l2.lemma_wf_inv();
                start.worker(worker).lemma_device_ops_keep(hash.0, no_components());
                assert(hashes[device_blocks - 1] == hash.0);
            }
        }
        let ghost touched = self@;
        assert(touched =~= start.touch_boundary(worker, hashes, device_blocks as int));
        if target <= device_blocks {
            assert(self@ =~= start.prefetch(worker, hashes, device_blocks as int));
            return device_blocks;
        }
        let mut i: usize = 0;
        assert(hashes.take(0) =~= Seq::<u64>::empty());
        while i < target
            invariant
                i <= target <= sequence.len(),
                hashes == hash_values(sequence@),
                self.wf(),
                touched.page_size > 0,
                self@ == touched.stage_all(worker, hashes.take(i as int)),
                self@.page_size == touched.page_size,
                self@.l3 == touched.l3,
            decreases target - i,
        {
            let hash = sequence[i];
            let ghost m = self@;
            proof {
                let longer = hashes.take(i + 1);
                assert(longer.drop_last() =~= hashes.take(i as int));
                assert(longer.last() == hash.0);
            }
            let components = self.l3.components(hash);
            proof {
                m.worker(worker).lemma_insert_keeps(hash.0, components);
            }
            let l2 = self.worker_mut(worker);
            if components.regular || components.trailing {
                l2.insert(hash, components);
            } else {
                l2.touch(hash);
            }
            proof {
                l2.lemma_wf_inv();
            }
            i = i + 1;
        }
        proof {
            touched.lemma_stage_all_frame(worker, hashes.take(target as int));
        }
        self.l3_mut().touch_prefix(sequence, shared);
        assert(self@ =~= start.staged(worker, hashes, device_blocks as int));
        proof {
            lemma_usable_prefix_bounds(
                self@.worker(worker).host_masks(hashes),
                device_blocks as int,
            );
        }
        let reach: usize = device_blocks + self.l2_extension_blocks(
            worker,
            sequence,
            device_blocks,
        );
        let admitted: usize = if reach < target { reach } else { target };
        let gained: usize = admitted.saturating_sub(local);
        self.l3_prefetched_pages = self.l3_prefetched_pages.saturating_add(gained as u64);
        assert(self@ =~= start.prefetch(worker, hashes, device_blocks as int));
        admitted
    }

    /// Forgets every rank of a worker.
    pub fn remove_worker(&mut self, worker_id: u64)
        requires
            old(self).wf(),
        ensures
            final(self).wf(),
            final(self)@ == old(self)@.remove_worker(worker_id),
    {
        let ghost before = self.workers@;
        let mut i: usize = 0;
        while i < self.workers.len()
            invariant
                i <= self.workers@.len(),
                before == old(self).workers@,
                *self == (SglangHiCacheState { workers: self.workers, ..*old(self) }),
                distinct(before),
                distinct(self.workers@),
                forall|j: int| 0 <= j < before.len() ==> (#[trigger] before[j]).l2.wf(),
                forall|j: int|
                    0 <= j < i ==> (#[trigger] self.workers@[j]).worker.worker_id != worker_id,
                forall|j: int|
                    0 <= j < self.workers@.len() ==> before.contains(#[trigger] self.workers@[j]),
                forall|j: int|
                    0 <= j < before.len() && (#[trigger] before[j]).worker.worker_id != worker_id
                        ==> self.workers@.contains(before[j]),
            decreases self.workers@.len() - i,
        {
            if self.workers[i].worker.worker_id == worker_id {
                let ghost longer = self.workers@;
                self.workers.remove(i);
                proof {
                    assert(self.workers@ =~= longer.remove(i as int));
                    assert forall|j: int| 0 <= j < before.len() && (#[trigger]
                        before[j]).worker.worker_id
                        != worker_id implies self.workers@.contains(before[j]) by {
                        let k = choose|k: int| 0 <= k < longer.len() && longer[k] == before[j];
                        assert(longer[k] == before[j]);
                        if k < i {
                            assert(self.workers@[k] == before[j]);
                        } else {
                            assert(self.workers@[k - 1] == before[j]);
                        }
                    }
                }
            } else {
                i = i + 1;
            }
        }
        proof {
            let after = self.workers@;
            let m = old(self)@;
            assert forall|w: WorkerWithDpRank|
                self@.workers.contains_key(w) <==> (m.workers.contains_key(w) && w.worker_id
                    != worker_id) by {
                if self@.workers.contains_key(w) {
                    let j = choose|j: int| is_at(after, w, j);
                    assert(before.contains(after[j]));
                    let k = choose|k: int| 0 <= k < before.len() && before[k] == after[j];
                    assert(is_at(before, w, k));
                }
                if m.workers.contains_key(w) && w.worker_id != worker_id {
                    let k = choose|k: int| is_at(before, w, k);
                    assert(after.contains(before[k]));
                    let j = choose|j: int| 0 <= j < after.len() && after[j] == before[k];
                    assert(is_at(after, w, j));
                }
            }
            assert forall|w: WorkerWithDpRank|
                self@.workers.contains_key(w) implies self@.workers[w] == m.workers[w] by {
                let j = choose|j: int| is_at(after, w, j);
                lemma_worker_at(after, j);
                let k = choose|k: int| 0 <= k < before.len() && before[k] == after[j];
                lemma_worker_at(before, k);
            }
            lemma_worker_count(after);
            assert(self@ =~= m.remove_worker(worker_id));
            if m.page_size == 0 {
                assert(self@.workers.dom() =~= Set::<WorkerWithDpRank>::empty());
            }
            assert forall|j: int| 0 <= j < after.len() implies (#[trigger] after[j]).l2.wf() by {
                let k = choose|k: int| 0 <= k < before.len() && before[k] == after[j];
                assert(before[k].l2.wf());
            }
        }
    }

    /// Configuration, page geometry and counters.
    pub fn report(&self) -> (report: SglangHiCacheReport)
        requires
            self.wf(),
            self@.total_full_pages() <= usize::MAX,
            self@.total_swa_pages() <= usize::MAX,
        ensures
            report.shows(self@),
    {
        let totals = self.resident_totals();
        proof {
            lemma_worker_count(self.workers@);
        }
        SglangHiCacheReport {
            geometry_id: DSV4_GEOMETRY_ID.to_string(),
            write_policy: self.config.write_policy,
            page_size_tokens: self.page_size,
            l1_swa_capacity_tokens_per_worker: self.config.l1_swa_capacity_tokens,
            l2_full_capacity_tokens_per_worker: self.config.l2_full_capacity_tokens,
            l2_swa_capacity_tokens_per_worker: self.config.l2_swa_capacity_tokens,
            io_tokens_per_second: self.config.io_tokens_per_second,
            c4_bytes_per_page: DSV4_C4_BYTES_PER_PAGE,
            c4_indexer_bytes_per_page: DSV4_C4_INDEXER_BYTES_PER_PAGE,
            c128_bytes_per_page: DSV4_C128_BYTES_PER_PAGE,
            swa_bytes_per_page: DSV4_SWA_BYTES_PER_PAGE,
            c4_state_bytes_per_page: DSV4_C4_STATE_BYTES_PER_PAGE,
            c4_indexer_state_bytes_per_page: DSV4_C4_INDEXER_STATE_BYTES_PER_PAGE,
            regular_bytes_per_page: DSV4_REGULAR_BYTES_PER_PAGE,
            trailing_bytes_per_page: DSV4_TRAILING_BYTES_PER_PAGE,
            full_bundle_bytes_per_page: DSV4_FULL_BUNDLE_BYTES_PER_PAGE,
            workers_with_l2_state: self.workers.len(),
            final_l2_full_pages: totals.0,
            final_l2_swa_pages: totals.1,
            d2h_tokens: self.d2h_tokens,
            h2d_tokens: 0,
            total_host_io_tokens: self.d2h_tokens,
            route_input_tokens: 0,
            route_reused_tokens: 0,
            route_recomputed_tokens: 0,
            admission_input_tokens: 0,
            admission_reused_tokens: 0,
            admission_recomputed_tokens: 0,
            l3_prefetched_pages: self.l3_prefetched_pages,
            l3: self.l3.report(),
        }
    }

    /// Regular and trailing groups on the host tiers of all workers.
    fn resident_totals(&self) -> (totals: (usize, usize))
        requires
            self.wf(),
            self@.total_full_pages() <= usize::MAX,
            self@.total_swa_pages() <= usize::MAX,
        ensures
            totals.0 == self@.total_full_pages(),
            totals.1 == self@.total_swa_pages(),
    {
        let ghost m = self@;
        let ghost entries = self.workers@;
        let mut full: usize = 0;
        let mut swa: usize = 0;
        let mut i: usize = 0;
        proof {
            lemma_worker_count(entries.take(0));
            worker_map(entries.take(0)).dom().lemma_len0_is_empty();
            lemma_count_sums(m, entries, 0);
        }
        while i < self.workers.len()
            invariant
                i <= entries.len(),
                entries == self.workers@,
                m == self@,
                self.wf(),
                distinct(entries),
                m.workers == worker_map(entries),
                full == m.full_sum(worker_map(entries.take(i as int)).dom()),
                swa == m.swa_sum(worker_map(entries.take(i as int)).dom()),
                m.total_full_pages() <= usize::MAX,
                m.total_swa_pages() <= usize::MAX,
            decreases entries.len() - i,
        {
            proof {
                lemma_count_sums(m, entries, i as int);
                lemma_sums_grow(m, entries, i + 1);
                lemma_worker_at(entries, i as int);
            }
            full = full + self.workers[i].l2.full_resident_pages();
            swa = swa + self.workers[i].l2.swa_resident_pages();
            i = i + 1;
        }
        assert(entries.take(i as int) =~= entries);
        (full, swa)
    }
}

} // verus!
