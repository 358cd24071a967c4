//! Mathematical model of the whole hierarchy: one host tier per worker rank
//! and the shared lower tier.

use crate::geometry::{no_components, ComponentMask};
use crate::l2_model::L2Model;
use crate::l3_model::{sat_add, L3Model};
use crate::protocols::{
    hash_values, stored_hashes, KvCacheEventData, RouterEvent, SglangHiCacheArgs,
    SglangHiCacheWritePolicy, StorageTier, WorkerWithDpRank,
};
use vstd::prelude::*;

verus! {

/// The regular group alone: what an ordinary event reports of a page.
pub open spec fn regular_only() -> ComponentMask {
    ComponentMask { regular: true, trailing: false }
}

/// The trailing group alone: what a metadata event reports of a page.
pub open spec fn trailing_only() -> ComponentMask {
    ComponentMask { regular: false, trailing: true }
}

/// A page with both its groups.
pub open spec fn whole_page() -> ComponentMask {
    ComponentMask { regular: true, trailing: true }
}

pub open spec fn min_int(a: int, b: int) -> int {
    if a < b {
        a
    } else {
        b
    }
}

pub open spec fn max_int(a: int, b: int) -> int {
    if a < b {
        b
    } else {
        a
    }
}

#[verifier::ext_equal]
pub struct HiCacheModel {
    pub config: SglangHiCacheArgs,
    pub page_size: usize,
    pub workers: Map<WorkerWithDpRank, L2Model>,
    pub l3: L3Model,
    pub d2h_tokens: u64,
    pub l3_prefetched_pages: u64,
}

impl HiCacheModel {
    pub open spec fn fresh(
        config: SglangHiCacheArgs,
        page_size: usize,
        l3_capacity_bytes: u64,
    ) -> Self {
        HiCacheModel {
            config,
            page_size,
            workers: Map::empty(),
            l3: L3Model::fresh(l3_capacity_bytes),
            d2h_tokens: 0,
            l3_prefetched_pages: 0,
        }
    }

    /// The host tier that a worker starts with.
    pub open spec fn fresh_l2(self) -> L2Model {
        L2Model::fresh(
            (self.config.l2_full_capacity_tokens / self.page_size) as nat,
            (self.config.l2_swa_capacity_tokens / self.page_size) as nat,
        )
    }

    pub open spec fn worker(self, worker: WorkerWithDpRank) -> L2Model {
        if self.workers.contains_key(worker) {
            self.workers[worker]
        } else {
            self.fresh_l2()
        }
    }

    pub open spec fn with_worker(self, worker: WorkerWithDpRank, l2: L2Model) -> Self {
        HiCacheModel { workers: self.workers.insert(worker, l2), ..self }
    }

    /// A host tier as this hierarchy may hold it.
    pub open spec fn admits_l2(self, l2: L2Model) -> bool {
        &&& l2.inv()
        &&& l2.tidy()
        &&& l2.full_capacity == self.fresh_l2().full_capacity
        &&& l2.swa_capacity == self.fresh_l2().swa_capacity
    }

    pub open spec fn inv(self) -> bool {
        &&& self.l3.inv()
        &&& self.workers.dom().finite()
        &&& self.page_size == 0 ==> self.workers.dom() == Set::<WorkerWithDpRank>::empty()
        &&& forall|w: WorkerWithDpRank| #[trigger]
            self.workers.contains_key(w) ==> self.admits_l2(self.workers[w])
    }

    /// Copies the offered groups of a page to a worker's host tier; what the
    /// host then holds of the page goes on to the shared tier, if it holds the
    /// regular group.
    pub open spec fn backup(
        self,
        worker: WorkerWithDpRank,
        hash: u64,
        components: ComponentMask,
    ) -> Self {
        let l2 = self.worker(worker).insert(hash, components);
        let stored = l2.host(hash);
        HiCacheModel {
            l3: if stored.regular { self.l3.put(hash, stored) } else { self.l3 },
            ..self.with_worker(worker, l2)
        }
    }

    /// Pages that a backup brings to the host anew: one or none.
    pub open spec fn backup_adds(
        self,
        worker: WorkerWithDpRank,
        hash: u64,
        components: ComponentMask,
    ) -> nat {
        if self.worker(worker).insert_adds_full(hash, components) {
            1
        } else {
            0
        }
    }

    /// Device traffic in tokens for a number of pages.
    pub open spec fn page_tokens(self, pages: nat) -> int {
        min_int(pages * self.page_size, usize::MAX as int)
    }

    /// The device stored `device` of a page, of which write-through copies
    /// `offered`.
    pub open spec fn store_block(
        self,
        worker: WorkerWithDpRank,
        hash: u64,
        device: ComponentMask,
        offered: ComponentMask,
    ) -> Self {
        let stored = self.with_worker(worker, self.worker(worker).mark_device_stored(hash, device));
        if self.config.write_policy == SglangHiCacheWritePolicy::WriteThrough {
            stored.backup(worker, hash, offered)
        } else {
            stored
        }
    }

    pub open spec fn store_block_adds(
        self,
        worker: WorkerWithDpRank,
        hash: u64,
        device: ComponentMask,
        offered: ComponentMask,
    ) -> nat {
        let stored = self.with_worker(worker, self.worker(worker).mark_device_stored(hash, device));
        if self.config.write_policy == SglangHiCacheWritePolicy::WriteThrough {
            stored.backup_adds(worker, hash, offered)
        } else {
            0
        }
    }

    pub open spec fn store_blocks(
        self,
        worker: WorkerWithDpRank,
        hashes: Seq<u64>,
        device: ComponentMask,
        offered: ComponentMask,
    ) -> Self
        decreases hashes.len(),
    {
        if hashes.len() == 0 {
            self
        } else {
            self.store_blocks(worker, hashes.drop_last(), device, offered).store_block(
                worker,
                hashes.last(),
                device,
                offered,
            )
        }
    }

    pub open spec fn store_blocks_adds(
        self,
        worker: WorkerWithDpRank,
        hashes: Seq<u64>,
        device: ComponentMask,
        offered: ComponentMask,
    ) -> nat
        decreases hashes.len(),
    {
        if hashes.len() == 0 {
            0
        } else {
            self.store_blocks_adds(worker, hashes.drop_last(), device, offered)
                + self.store_blocks(worker, hashes.drop_last(), device, offered).store_block_adds(
                worker,
                hashes.last(),
                device,
                offered,
            )
        }
    }

    /// The device dropped a page; write-back copies what it had of it first.
    pub open spec fn remove_block(self, worker: WorkerWithDpRank, hash: u64) -> Self {
        let saved = if self.config.write_policy == SglangHiCacheWritePolicy::WriteBack {
            self.backup(worker, hash, self.worker(worker).device(hash))
        } else {
            self
        };
        saved.with_worker(worker, saved.worker(worker).mark_device_removed(hash))
    }

    pub open spec fn remove_block_adds(self, worker: WorkerWithDpRank, hash: u64) -> nat {
        if self.config.write_policy == SglangHiCacheWritePolicy::WriteBack {
            self.backup_adds(worker, hash, self.worker(worker).device(hash))
        } else {
            0
        }
    }

    pub open spec fn remove_blocks(self, worker: WorkerWithDpRank, hashes: Seq<u64>) -> Self
        decreases hashes.len(),
    {
        if hashes.len() == 0 {
            self
        } else {
            self.remove_blocks(worker, hashes.drop_last()).remove_block(worker, hashes.last())
        }
    }

    pub open spec fn remove_blocks_adds(self, worker: WorkerWithDpRank, hashes: Seq<u64>) -> nat
        decreases hashes.len(),
    {
        if hashes.len() == 0 {
            0
        } else {
            self.remove_blocks_adds(worker, hashes.drop_last()) + self.remove_blocks(
                worker,
                hashes.drop_last(),
            ).remove_block_adds(worker, hashes.last())
        }
    }

    /// The device dropped the trailing groups of pages.
    pub open spec fn remove_trailing_blocks(
        self,
        worker: WorkerWithDpRank,
        hashes: Seq<u64>,
    ) -> Self
        decreases hashes.len(),
    {
        if hashes.len() == 0 {
            self
        } else {
            let m = self.remove_trailing_blocks(worker, hashes.drop_last());
            m.with_worker(worker, m.worker(worker).mark_device_trailing_removed(hashes.last()))
        }
    }

    /// Events of other tiers than the device are not for this model, unless
    /// they are on the metadata sideband.
    pub open spec fn ignores(event: RouterEvent) -> bool {
        !event.hicache_metadata && event.storage_tier != StorageTier::Device
    }

    /// Whether an event reaches the host tier of its worker at all.
    pub open spec fn reaches_worker(event: RouterEvent) -> bool {
        !Self::ignores(event) && match event.event.data {
            KvCacheEventData::Stored(store) => store.blocks@.len() > 0,
            KvCacheEventData::Removed(remove) => remove.block_hashes@.len() > 0,
            KvCacheEventData::Cleared => !event.hicache_metadata,
        }
    }

    /// Pages that an event brings to host tiers anew.
    pub open spec fn event_adds(self, event: RouterEvent) -> nat {
        let worker = event.source();
        if Self::ignores(event) {
            0
        } else {
            match event.event.data {
                KvCacheEventData::Stored(store) => if event.hicache_metadata {
                    self.store_blocks_adds(
                        worker,
                        stored_hashes(store),
                        trailing_only(),
                        trailing_only(),
                    )
                } else {
                    self.store_blocks_adds(
                        worker,
                        stored_hashes(store),
                        regular_only(),
                        whole_page(),
                    )
                },
                KvCacheEventData::Removed(remove) => if event.hicache_metadata {
                    0
                } else {
                    self.remove_blocks_adds(worker, hash_values(remove.block_hashes@))
                },
                KvCacheEventData::Cleared => 0,
            }
        }
    }

    /// The tiers after an event; its traffic is not counted yet.
    pub open spec fn after_event(self, event: RouterEvent) -> Self {
        let worker = event.source();
        if Self::ignores(event) {
            self
        } else {
            match event.event.data {
                KvCacheEventData::Stored(store) => if event.hicache_metadata {
                    self.store_blocks(
                        worker,
                        stored_hashes(store),
                        trailing_only(),
                        trailing_only(),
                    )
                } else {
                    self.store_blocks(worker, stored_hashes(store), regular_only(), whole_page())
                },
                KvCacheEventData::Removed(remove) => if event.hicache_metadata {
                    self.remove_trailing_blocks(worker, hash_values(remove.block_hashes@))
                } else {
                    self.remove_blocks(worker, hash_values(remove.block_hashes@))
                },
                KvCacheEventData::Cleared => if event.hicache_metadata {
                    self
                } else {
                    self.with_worker(worker, self.worker(worker).clear_device())
                },
            }
        }
    }

    /// New device traffic that an event causes, in tokens.
    pub open spec fn event_tokens(self, event: RouterEvent) -> int {
        self.page_tokens(self.event_adds(event))
    }

    pub open spec fn apply_event(self, event: RouterEvent) -> Self {
        HiCacheModel {
            d2h_tokens: sat_add(self.d2h_tokens, self.event_tokens(event)),
            ..self.after_event(event)
        }
    }

    /// Brings one page of a selected prefix to a worker's host tier from the
    /// shared tier, or marks it used where the shared tier has nothing of it.
    pub open spec fn stage(self, worker: WorkerWithDpRank, hash: u64) -> Self {
        let components = self.l3.components(hash);
        self.with_worker(
            worker,
            if components != no_components() {
                self.worker(worker).insert(hash, components)
            } else {
                self.worker(worker).touch(hash)
            },
        )
    }

    pub open spec fn stage_all(self, worker: WorkerWithDpRank, hashes: Seq<u64>) -> Self
        decreases hashes.len(),
    {
        if hashes.len() == 0 {
            self
        } else {
            self.stage_all(worker, hashes.drop_last()).stage(worker, hashes.last())
        }
    }

    /// Where reuse ends with what the worker itself holds.
    pub open spec fn local_end(
        self,
        worker: WorkerWithDpRank,
        sequence: Seq<u64>,
        device_blocks: int,
    ) -> int {
        device_blocks + self.worker(worker).extension(sequence, device_blocks)
    }

    /// Where reuse ends with the better of the worker's own tiers and the
    /// shared tier.
    pub open spec fn prefetch_target(
        self,
        worker: WorkerWithDpRank,
        sequence: Seq<u64>,
        device_blocks: int,
    ) -> int {
        max_int(self.local_end(worker, sequence, device_blocks), self.l3.prefix(sequence))
    }

    /// Marks the last page that the device serves as used.
    pub open spec fn touch_boundary(
        self,
        worker: WorkerWithDpRank,
        sequence: Seq<u64>,
        device_blocks: int,
    ) -> Self {
        if device_blocks > 0 {
            self.with_worker(
                worker,
                self.worker(worker).touch_device_boundary(sequence[device_blocks - 1]),
            )
        } else {
            self
        }
    }

    /// The hierarchy once the selected prefix has been brought to the worker.
    pub open spec fn staged(
        self,
        worker: WorkerWithDpRank,
        sequence: Seq<u64>,
        device_blocks: int,
    ) -> Self {
        let target = self.prefetch_target(worker, sequence, device_blocks);
        let touched = self.touch_boundary(worker, sequence, device_blocks);
        if target <= device_blocks {
            touched
        } else {
            let filled = touched.stage_all(worker, sequence.take(target));
            HiCacheModel {
                l3: filled.l3.touch_all(sequence.take(self.l3.prefix(sequence))),
                ..filled
            }
        }
    }

    /// Pages of the selected prefix that the worker can serve after staging.
    pub open spec fn admitted(
        self,
        worker: WorkerWithDpRank,
        sequence: Seq<u64>,
        device_blocks: int,
    ) -> int {
        let target = self.prefetch_target(worker, sequence, device_blocks);
        if target <= device_blocks {
            device_blocks
        } else {
            min_int(
                self.staged(worker, sequence, device_blocks).local_end(
                    worker,
                    sequence,
                    device_blocks,
                ),
                target,
            )
        }
    }

    pub open spec fn prefetch(
        self,
        worker: WorkerWithDpRank,
        sequence: Seq<u64>,
        device_blocks: int,
    ) -> Self {
        let gained = self.admitted(worker, sequence, device_blocks) - self.local_end(
            worker,
            sequence,
            device_blocks,
        );
        HiCacheModel {
            l3_prefetched_pages: sat_add(
                self.l3_prefetched_pages,
                if gained > 0 { gained } else { 0 },
            ),
            ..self.staged(worker, sequence, device_blocks)
        }
    }

    /// Forgets every rank of a worker.
    pub open spec fn remove_worker(self, worker_id: u64) -> Self {
        HiCacheModel {
            workers: Map::new(
                |w: WorkerWithDpRank| self.workers.contains_key(w) && w.worker_id != worker_id,
                |w: WorkerWithDpRank| self.workers[w],
            ),
            ..self
        }
    }

    /// Regular groups on the host tiers of the given ranks together.
    pub open spec fn full_sum(self, ranks: Set<WorkerWithDpRank>) -> nat {
        ranks.fold(
            0nat,
            |sum: nat, w: WorkerWithDpRank| sum + self.workers[w].full_pages().len(),
        )
    }

    /// Trailing groups on the host tiers of the given ranks together.
    pub open spec fn swa_sum(self, ranks: Set<WorkerWithDpRank>) -> nat {
        ranks.fold(
            0nat,
            |sum: nat, w: WorkerWithDpRank| sum + self.workers[w].swa_pages().len(),
        )
    }

    /// Regular groups on all host tiers together.
    pub open spec fn total_full_pages(self) -> nat {
        self.full_sum(self.workers.dom())
    }

    /// Trailing groups on all host tiers together.
    pub open spec fn total_swa_pages(self) -> nat {
        self.swa_sum(self.workers.dom())
    }

    /// What counting no rank, or one rank more, gives.
    pub proof fn lemma_sums_step(
        self,
        ranks: Set<WorkerWithDpRank>,
        more: Option<WorkerWithDpRank>,
    )
        requires
            ranks.finite(),
            more matches Some(w) ==> !ranks.contains(w),
        ensures
            self.full_sum(Set::empty()) == 0,
            self.swa_sum(Set::empty()) == 0,
            more matches Some(w) ==> self.full_sum(ranks.insert(w)) == self.full_sum(ranks)
                + self.workers[w].full_pages().len(),
            more matches Some(w) ==> self.swa_sum(ranks.insert(w)) == self.swa_sum(ranks)
                + self.workers[w].swa_pages().len(),
    {
        let full = |sum: nat, w: WorkerWithDpRank| sum + self.workers[w].full_pages().len();
        let swa = |sum: nat, w: WorkerWithDpRank| sum + self.workers[w].swa_pages().len();
        vstd::set::fold::lemma_fold_empty(0nat, full);
        vstd::set::fold::lemma_fold_empty(0nat, swa);
        if let Some(w) = more {
            vstd::set::fold::lemma_fold_insert(ranks, 0nat, full, w);
            vstd::set::fold::lemma_fold_insert(ranks, 0nat, swa, w);
        }
    }
}

impl HiCacheModel {
    /// Nothing but the tiers differs.
    pub open spec fn same_but_tiers(self, other: Self) -> bool {
        &&& self.config == other.config
        &&& self.page_size == other.page_size
        &&& self.d2h_tokens == other.d2h_tokens
        &&& self.l3_prefetched_pages == other.l3_prefetched_pages
    }

    pub proof fn lemma_store_blocks_frame(
        self,
        worker: WorkerWithDpRank,
        hashes: Seq<u64>,
        device: ComponentMask,
        offered: ComponentMask,
    )
        ensures
            self.store_blocks(worker, hashes, device, offered).same_but_tiers(self),
        decreases hashes.len(),
    {
        if hashes.len() > 0 {
            self.lemma_store_blocks_frame(worker, hashes.drop_last(), device, offered);
        }
    }

    pub proof fn lemma_remove_blocks_frame(self, worker: WorkerWithDpRank, hashes: Seq<u64>)
        ensures
            self.remove_blocks(worker, hashes).same_but_tiers(self),
            self.remove_trailing_blocks(worker, hashes).same_but_tiers(self),
        decreases hashes.len(),
    {
        if hashes.len() > 0 {
            self.lemma_remove_blocks_frame(worker, hashes.drop_last());
        }
    }

    /// An event changes the tiers and, once counted, the device traffic.
    pub proof fn lemma_after_event_frame(self, event: RouterEvent)
        ensures
            self.after_event(event).same_but_tiers(self),
    {
        let worker = event.source();
        match event.event.data {
            KvCacheEventData::Stored(store) => {
                let hashes = stored_hashes(store);
                self.lemma_store_blocks_frame(worker, hashes, trailing_only(), trailing_only());
                self.lemma_store_blocks_frame(worker, hashes, regular_only(), whole_page());
            },
            KvCacheEventData::Removed(remove) => {
                self.lemma_remove_blocks_frame(worker, hash_values(remove.block_hashes@));
            },
            KvCacheEventData::Cleared => {},
        }
    }

    pub proof fn lemma_stage_all_frame(self, worker: WorkerWithDpRank, hashes: Seq<u64>)
        ensures
            self.stage_all(worker, hashes).same_but_tiers(self),
            self.stage_all(worker, hashes).l3 == self.l3,
        decreases hashes.len(),
    {
        if hashes.len() > 0 {
            self.lemma_stage_all_frame(worker, hashes.drop_last());
        }
    }
}

/// Counting traffic page by page, with every sum cut off at the largest value,
/// gives the traffic of all pages together, cut off once.
pub proof fn lemma_page_tokens_add(m: HiCacheModel, before: nat, more: nat)
    requires
        more <= 1,
    ensures
        m.page_tokens(before + more) == min_int(
            m.page_tokens(before) + m.page_tokens(more),
            usize::MAX as int,
        ),
        m.page_tokens(0) == 0,
{
    let p = m.page_size as int;
    assert((before + more) * p == before * p + more * p && 0 * p == 0 && 1 * p == p && before * p
        >= 0) by (nonlinear_arith)
        requires
            p >= 0,
            before >= 0,
    ;
}

} // verus!
