//! What events do to the hierarchy, told by the stored pages.

use crate::facts::{
    capped, device_regular, device_trailing, group_bytes, host_regular, host_regular_count,
    host_trailing, l3_regular, l3_trailing, may_give_way, tier,
};
use crate::geometry::ComponentMask;
use crate::hicache_laws::law_events_are_local;
use crate::hicache_model::{regular_only, trailing_only, whole_page, HiCacheModel};
use crate::l2_effects::{
    law_clear_device_effect, law_device_removals_effect, law_insert_brings_regular_group,
    law_insert_brings_trailing_group, law_insert_marks_use, law_mark_device_stored_effect,
};
use crate::l2_laws::law_invariant_is_kept;
use crate::l2_model::L2Model;
use crate::l3_effects::{law_put_answers_by_size, law_put_stores_and_counts, wanted_bytes};
use crate::protocols::{
    hash_values, stored_hashes, KvCacheEventData, RouterEvent, SglangHiCacheArgs,
    SglangHiCacheWritePolicy, StorageTier, WorkerWithDpRank,
};
use vstd::prelude::*;

verus! {

/// The rank that published an event.
pub open spec fn publisher(event: RouterEvent) -> WorkerWithDpRank {
    WorkerWithDpRank { worker_id: event.worker_id, dp_rank: event.event.dp_rank }
}

/// The event reports one page stored.
pub open spec fn stores_one(event: RouterEvent, hash: u64) -> bool {
    event.event.data matches KvCacheEventData::Stored(store) && store.blocks@.len() == 1
        && store.blocks@[0].block_hash.0 == hash
}

/// The event reports one page removed.
pub open spec fn removes_one(event: RouterEvent, hash: u64) -> bool {
    event.event.data matches KvCacheEventData::Removed(remove) && remove.block_hashes@.len() == 1
        && remove.block_hashes@[0].0 == hash
}

/// A cache event of the device.
pub open spec fn is_ordinary(event: RouterEvent) -> bool {
    !event.hicache_metadata && event.storage_tier == StorageTier::Device
}

/// The groups that the host holds of a page.
pub open spec fn host_groups(l2: L2Model, hash: u64) -> ComponentMask {
    ComponentMask { regular: host_regular(l2, hash), trailing: host_trailing(l2, hash) }
}

/// The groups that the device holds of a page.
pub open spec fn device_groups(l2: L2Model, hash: u64) -> ComponentMask {
    ComponentMask { regular: device_regular(l2, hash), trailing: device_trailing(l2, hash) }
}

/// Law: a new hierarchy knows no worker, stores nothing and has counted nothing.
pub proof fn law_new_hierarchy_is_empty(
    config: SglangHiCacheArgs,
    page_size: usize,
    l3_capacity_bytes: u64,
    worker: WorkerWithDpRank,
    hash: u64,
)
    ensures
        ({
            let m = HiCacheModel::fresh(config, page_size, l3_capacity_bytes);
            &&& m.config == config && m.page_size == page_size
            &&& !m.workers.contains_key(worker)
            &&& m.l3.capacity_bytes == l3_capacity_bytes
            &&& !m.l3.pages.contains_key(hash)
            &&& m.d2h_tokens == 0 && m.l3_prefetched_pages == 0
            &&& m.worker(worker) == tier(m, worker)
        }),
{
}

/// Law: a rank's tier is the one that is kept for it, or an empty one of the
/// configured capacity.
pub proof fn law_worker_is_its_tier(m: HiCacheModel, worker: WorkerWithDpRank)
    ensures
        m.worker(worker) == tier(m, worker),
{
}

/// Law: replacing the tier of one rank replaces that alone.
pub proof fn law_replacing_a_tier(
    m: HiCacheModel,
    worker: WorkerWithDpRank,
    l2: L2Model,
    other: WorkerWithDpRank,
)
    ensures
        ({
            let after = m.with_worker(worker, l2);
            &&& tier(after, worker) == l2 && after.workers.contains_key(worker)
            &&& other != worker ==> (after.workers.contains_key(other) <==> m.workers.contains_key(
                other,
            )) && tier(after, other) == tier(m, other)
            &&& after == (HiCacheModel { workers: after.workers, ..m })
        }),
{
}

/// Law: an event adds its traffic to the count, and leaves the configuration,
/// the prefetch count and all other ranks as they are.
pub proof fn law_event_frame(m: HiCacheModel, event: RouterEvent, other: WorkerWithDpRank)
    requires
        other != publisher(event),
    ensures
        ({
            let after = m.apply_event(event);
            &&& after.config == m.config && after.page_size == m.page_size
            &&& after.l3_prefetched_pages == m.l3_prefetched_pages
            &&& after.d2h_tokens == capped(m.d2h_tokens + m.event_tokens(event))
            &&& after.workers.contains_key(other) <==> m.workers.contains_key(other)
            &&& m.workers.contains_key(other) ==> after.workers[other] == m.workers[other]
        }),
{
    m.lemma_after_event_frame(event);
    law_events_are_local(m, event);
    let a = m.apply_event(event).workers.remove(publisher(event));
    let b = m.workers.remove(publisher(event));
    assert(a.contains_key(other) <==> b.contains_key(other));
    assert(b.contains_key(other) ==> a[other] == b[other]);
}

proof fn lemma_tier_inv(m: HiCacheModel, worker: WorkerWithDpRank)
    requires
        m.inv(),
    ensures
        tier(m, worker).inv(),
{
    if !m.workers.contains_key(worker) {
        assert(tier(m, worker).full_pages() =~= Set::<u64>::empty());
        assert(tier(m, worker).swa_pages() =~= Set::<u64>::empty());
    }
}

proof fn lemma_one_page(m: HiCacheModel, worker: WorkerWithDpRank, hashes: Seq<u64>)
    requires
        hashes.len() == 1,
    ensures
        forall|d: ComponentMask, c: ComponentMask| #[trigger]
            m.store_blocks(worker, hashes, d, c) == m.store_block(worker, hashes[0], d, c),
        forall|d: ComponentMask, c: ComponentMask| #[trigger]
            m.store_blocks_adds(worker, hashes, d, c) == m.store_block_adds(
                worker,
                hashes[0],
                d,
                c,
            ),
        m.remove_blocks(worker, hashes) == m.remove_block(worker, hashes[0]),
        m.remove_blocks_adds(worker, hashes) == m.remove_block_adds(worker, hashes[0]),
        m.remove_trailing_blocks(worker, hashes) == m.with_worker(
            worker,
            m.worker(worker).mark_device_trailing_removed(hashes[0]),
        ),
{
    let none = hashes.drop_last();
    assert(none =~= Seq::<u64>::empty());
    assert forall|d: ComponentMask, c: ComponentMask| #[trigger]
        m.store_blocks(worker, hashes, d, c) == m.store_block(worker, hashes[0], d, c) by {
        assert(m.store_blocks(worker, none, d, c) == m);
    }
    assert forall|d: ComponentMask, c: ComponentMask| #[trigger]
        m.store_blocks_adds(worker, hashes, d, c) == m.store_block_adds(
        worker,
        hashes[0],
        d,
        c,
    ) by {
        assert(m.store_blocks(worker, none, d, c) == m);
        assert(m.store_blocks_adds(worker, none, d, c) == 0);
    }
    assert(m.remove_blocks(worker, none) == m);
    assert(m.remove_blocks_adds(worker, none) == 0);
    assert(m.remove_trailing_blocks(worker, none) == m);
}

proof fn lemma_page_traffic(m: HiCacheModel)
    ensures
        m.page_tokens(0) == 0,
        m.page_tokens(1) == m.page_size,
{
    assert(0 * m.page_size as int == 0);
    assert(1 * m.page_size as int == m.page_size as int);
}

/// What a backup of the given groups does to a tier and to the shared tier.
proof fn lemma_backup(
    m: HiCacheModel,
    worker: WorkerWithDpRank,
    hash: u64,
    components: ComponentMask,
)
    ensures
        ({
            let before = tier(m, worker);
            let after = before.insert(hash, components);
            let done = m.backup(worker, hash, components);
            &&& done.workers == m.workers.insert(worker, after)
            &&& done.l3 == if host_regular(after, hash) {
                m.l3.put(hash, host_groups(after, hash))
            } else {
                m.l3
            }
            &&& m.backup_adds(worker, hash, components) == if !host_regular(before, hash)
                && host_regular(after, hash) {
                1nat
            } else {
                0nat
            }
        }),
{
    let after = tier(m, worker).insert(hash, components);
    assert(after.host(hash) == host_groups(after, hash));
}

/// Law: an ordinary store report of one page puts its regular group on the
/// device and changes nothing else of any device. Write-back does no more.
/// Write-through brings the whole page to the host: its regular group if one
/// more fits or some page may give way, its trailing group beside it if the host
/// can hold such groups. The traffic is one page if the regular group came anew.
/// What the host then holds is offered to the shared tier.
pub proof fn law_ordinary_store_of_one_page(
    m: HiCacheModel,
    event: RouterEvent,
    hash: u64,
    o: u64,
)
    requires
        m.inv(),
        is_ordinary(event),
        stores_one(event, hash),
    ensures
        ({
            let w = publisher(event);
            let done = m.apply_event(event);
            let before = tier(m, w);
            let after = tier(done, w);
            &&& done.workers.contains_key(w)
            &&& device_regular(after, o) == (device_regular(before, o) || o == hash)
            &&& device_trailing(after, o) == device_trailing(before, o)
            &&& m.config.write_policy == SglangHiCacheWritePolicy::WriteBack ==> {
                &&& host_groups(after, o) == host_groups(before, o)
                &&& done.l3 == m.l3
                &&& m.event_tokens(event) == 0
                &&& after == before.mark_device_stored(
                    hash,
                    ComponentMask { regular: true, trailing: false },
                )
            }
            &&& m.config.write_policy == SglangHiCacheWritePolicy::WriteThrough ==> {
                &&& host_regular(after, hash) <==> host_regular(before, hash)
                    || host_regular_count(before) < before.full_capacity || exists|p: u64|
                    may_give_way(before, p)
                &&& host_trailing(after, hash) <==> host_trailing(before, hash) || (host_regular(
                    after,
                    hash,
                ) && before.swa_capacity > 0)
                &&& m.event_tokens(event) == if host_regular(after, hash) && !host_regular(
                    before,
                    hash,
                ) {
                    m.page_size as int
                } else {
                    0
                }
                &&& done.l3 == if host_regular(after, hash) {
                    m.l3.put(hash, host_groups(after, hash))
                } else {
                    m.l3
                }
                &&& after == before.mark_device_stored(
                    hash,
                    ComponentMask { regular: true, trailing: false },
                ).insert(hash, ComponentMask { regular: true, trailing: true })
            }
        }),
{
    let w = publisher(event);
    let before = tier(m, w);
    let regular = ComponentMask { regular: true, trailing: false };
    let whole = ComponentMask { regular: true, trailing: true };
    if let KvCacheEventData::Stored(store) = event.event.data {
        let hashes = stored_hashes(store);
        assert(hashes[0] == hash);
        lemma_one_page(m, w, hashes);
    }
    lemma_page_traffic(m);
    lemma_tier_inv(m, w);
    let marked = before.mark_device_stored(hash, regular);
    law_invariant_is_kept(before, hash, regular);
    law_mark_device_stored_effect(before, hash, regular, o);
    law_mark_device_stored_effect(before, hash, regular, hash);
    let stored = m.with_worker(w, marked);
    lemma_backup(stored, w, hash, whole);
    law_insert_brings_regular_group(marked, hash, whole);
    law_insert_brings_trailing_group(marked, hash, whole);
    law_insert_marks_use(marked, hash, whole, o);
    assert(host_regular_count(marked) == host_regular_count(before)) by {
        assert(marked.full_pages() =~= before.full_pages()) by {
            assert forall|p: u64| host_regular(marked, p) == host_regular(before, p) by {
                law_mark_device_stored_effect(before, hash, regular, p);
            }
            assert forall|p: u64|
                marked.full_pages().contains(p) == before.full_pages().contains(p) by {
                assert(host_regular(marked, p) == host_regular(before, p));
            }
        }
    }
    assert forall|p: u64| p != hash implies may_give_way(marked, p) == may_give_way(before, p) by {
        law_mark_device_stored_effect(before, hash, regular, p);
    }
    assert(!may_give_way(marked, hash));
    if exists|p: u64| may_give_way(before, p) {
        let p = choose|p: u64| may_give_way(before, p);
        if p != hash {
            assert(may_give_way(marked, p));
        }
    }
    if exists|p: u64| may_give_way(marked, p) {
        let p = choose|p: u64| may_give_way(marked, p);
        assert(p != hash);
        assert(may_give_way(before, p));
    }
}

/// Law: an ordinary removal report of one page leaves nothing of it on the
/// device and changes nothing else of any device. Write-through does no more.
/// Write-back first copies what the device had: the regular group if one more
/// fits or some page may give way, the trailing group beside it if the host can
/// hold such groups. The traffic is one page if the regular group came anew.
/// What the host then holds is offered to the shared tier.
pub proof fn law_ordinary_removal_of_one_page(
    m: HiCacheModel,
    event: RouterEvent,
    hash: u64,
    o: u64,
)
    requires
        m.inv(),
        is_ordinary(event),
        removes_one(event, hash),
    ensures
        ({
            let w = publisher(event);
            let done = m.apply_event(event);
            let before = tier(m, w);
            let after = tier(done, w);
            &&& done.workers.contains_key(w)
            &&& device_regular(after, o) == (device_regular(before, o) && o != hash)
            &&& device_trailing(after, o) == (device_trailing(before, o) && o != hash)
            &&& m.config.write_policy == SglangHiCacheWritePolicy::WriteThrough ==> {
                &&& host_groups(after, o) == host_groups(before, o)
                &&& done.l3 == m.l3
                &&& m.event_tokens(event) == 0
                &&& after == before.mark_device_removed(hash)
            }
            &&& m.config.write_policy == SglangHiCacheWritePolicy::WriteBack ==> {
                &&& host_regular(after, hash) <==> host_regular(before, hash) || (device_regular(
                    before,
                    hash,
                ) && (host_regular_count(before) < before.full_capacity || exists|p: u64|
                    may_give_way(before, p)))
                &&& host_trailing(after, hash) <==> host_trailing(before, hash) || (device_trailing(
                    before,
                    hash,
                ) && host_regular(after, hash) && before.swa_capacity > 0)
                &&& m.event_tokens(event) == if host_regular(after, hash) && !host_regular(
                    before,
                    hash,
                ) {
                    m.page_size as int
                } else {
                    0
                }
                &&& done.l3 == if host_regular(after, hash) {
                    m.l3.put(hash, host_groups(after, hash))
                } else {
                    m.l3
                }
                &&& after == before.insert(hash, device_groups(before, hash)).mark_device_removed(
                    hash,
                )
            }
        }),
{
    let w = publisher(event);
    let before = tier(m, w);
    let had = device_groups(before, hash);
    assert(before.device(hash) == had);
    if let KvCacheEventData::Removed(remove) = event.event.data {
        let hashes = hash_values(remove.block_hashes@);
        assert(hashes[0] == hash);
        lemma_one_page(m, w, hashes);
    }
    lemma_page_traffic(m);
    lemma_tier_inv(m, w);
    lemma_backup(m, w, hash, had);
    let copied = before.insert(hash, had);
    law_insert_brings_regular_group(before, hash, had);
    law_insert_brings_trailing_group(before, hash, had);
    law_insert_marks_use(before, hash, had, o);
    law_device_removals_effect(before, hash, o);
    law_device_removals_effect(copied, hash, o);
    law_device_removals_effect(copied, hash, hash);
    assert(host_groups(copied.mark_device_removed(hash), hash) == host_groups(copied, hash));
}

/// Law: what is offered to the shared tier is stored there, if the page then
/// fits the tier at all.
pub proof fn law_backed_up_groups_are_shared(m: HiCacheModel, event: RouterEvent, hash: u64)
    requires
        m.inv(),
        is_ordinary(event),
        stores_one(event, hash) && m.config.write_policy == SglangHiCacheWritePolicy::WriteThrough
            || removes_one(event, hash) && m.config.write_policy
            == SglangHiCacheWritePolicy::WriteBack,
        host_regular(tier(m.apply_event(event), publisher(event)), hash),
        group_bytes(
            true,
            l3_trailing(m.l3, hash) || host_trailing(
                tier(m.apply_event(event), publisher(event)),
                hash,
            ),
        ) <= m.l3.capacity_bytes,
    ensures
        l3_regular(m.apply_event(event).l3, hash),
        host_trailing(tier(m.apply_event(event), publisher(event)), hash) ==> l3_trailing(
            m.apply_event(event).l3,
            hash,
        ),
{
    if stores_one(event, hash) {
        law_ordinary_store_of_one_page(m, event, hash, hash);
    } else {
        law_ordinary_removal_of_one_page(m, event, hash, hash);
    }
    let offered = host_groups(tier(m.apply_event(event), publisher(event)), hash);
    law_put_answers_by_size(m.l3, hash, offered);
    assert(wanted_bytes(m.l3, hash, offered) <= m.l3.capacity_bytes);
    if crate::l3_effects::new_bytes(m.l3, hash, offered) > 0 {
        law_put_stores_and_counts(m.l3, hash, offered);
    }
}

/// Law: a metadata store report of one page puts its trailing group on the
/// device, causes no traffic, and changes no regular group anywhere. Under
/// write-through the trailing group also comes to the host beside a regular
/// group that is there, and what the host then holds is offered to the shared
/// tier.
pub proof fn law_metadata_store_of_one_page(
    m: HiCacheModel,
    event: RouterEvent,
    hash: u64,
    o: u64,
)
    requires
        m.inv(),
        event.hicache_metadata,
        stores_one(event, hash),
    ensures
        ({
            let w = publisher(event);
            let done = m.apply_event(event);
            let before = tier(m, w);
            let after = tier(done, w);
            let trailing = ComponentMask { regular: false, trailing: true };
            &&& done.workers.contains_key(w)
            &&& m.event_tokens(event) == 0
            &&& device_trailing(after, o) == (device_trailing(before, o) || o == hash)
            &&& device_regular(after, o) == device_regular(before, o)
            &&& host_regular(after, hash) == host_regular(before, hash)
            &&& m.config.write_policy == SglangHiCacheWritePolicy::WriteBack ==> {
                &&& host_groups(after, o) == host_groups(before, o)
                &&& done.l3 == m.l3
                &&& after == before.mark_device_stored(hash, trailing)
            }
            &&& m.config.write_policy == SglangHiCacheWritePolicy::WriteThrough ==> {
                &&& host_trailing(after, hash) <==> host_trailing(before, hash) || (host_regular(
                    before,
                    hash,
                ) && before.swa_capacity > 0)
                &&& done.l3 == if host_regular(before, hash) {
                    m.l3.put(hash, host_groups(after, hash))
                } else {
                    m.l3
                }
                &&& after == before.mark_device_stored(hash, trailing).insert(hash, trailing)
            }
        }),
{
    let w = publisher(event);
    let before = tier(m, w);
    let trailing = ComponentMask { regular: false, trailing: true };
    if let KvCacheEventData::Stored(store) = event.event.data {
        let hashes = stored_hashes(store);
        assert(hashes[0] == hash);
        lemma_one_page(m, w, hashes);
    }
    lemma_page_traffic(m);
    lemma_tier_inv(m, w);
    let marked = before.mark_device_stored(hash, trailing);
    law_invariant_is_kept(before, hash, trailing);
    law_mark_device_stored_effect(before, hash, trailing, o);
    law_mark_device_stored_effect(before, hash, trailing, hash);
    lemma_backup(m.with_worker(w, marked), w, hash, trailing);
    law_insert_brings_regular_group(marked, hash, trailing);
    law_insert_brings_trailing_group(marked, hash, trailing);
    law_insert_marks_use(marked, hash, trailing, o);
}

/// Law: a metadata removal report of one page takes its trailing group off the
/// device; the host, the shared tier and the traffic are not concerned.
pub proof fn law_metadata_removal_of_one_page(
    m: HiCacheModel,
    event: RouterEvent,
    hash: u64,
    o: u64,
)
    requires
        event.hicache_metadata,
        removes_one(event, hash),
    ensures
        ({
            let w = publisher(event);
            let done = m.apply_event(event);
            let before = tier(m, w);
            let after = tier(done, w);
            &&& done.workers.contains_key(w)
            &&& m.event_tokens(event) == 0
            &&& done.l3 == m.l3
            &&& device_trailing(after, o) == (device_trailing(before, o) && o != hash)
            &&& device_regular(after, o) == device_regular(before, o)
            &&& host_groups(after, o) == host_groups(before, o)
            &&& after == before.mark_device_trailing_removed(hash)
        }),
{
    let w = publisher(event);
    if let KvCacheEventData::Removed(remove) = event.event.data {
        let hashes = hash_values(remove.block_hashes@);
        assert(hashes[0] == hash);
        lemma_one_page(m, w, hashes);
    }
    lemma_page_traffic(m);
    law_device_removals_effect(tier(m, w), hash, o);
}

/// Law: an ordinary clear leaves nothing on the device of the rank and
/// everything on its host; on the sideband it means nothing.
pub proof fn law_clear_event(m: HiCacheModel, event: RouterEvent, o: u64)
    requires
        event.event.data is Cleared,
        event.hicache_metadata || is_ordinary(event),
    ensures
        m.event_tokens(event) == 0,
        event.hicache_metadata ==> m.apply_event(event) == m,
        is_ordinary(event) ==> {
            let w = publisher(event);
            let done = m.apply_event(event);
            let after = tier(done, w);
            &&& done.workers.contains_key(w)
            &&& done.l3 == m.l3
            &&& !device_regular(after, o) && !device_trailing(after, o)
            &&& host_groups(after, o) == host_groups(tier(m, w), o)
            &&& after == tier(m, w).clear_device()
        },
{
    lemma_page_traffic(m);
    law_clear_device_effect(tier(m, publisher(event)), o);
}

/// Law: an event of another tier than the device changes nothing, unless it is
/// on the metadata sideband, where the tier does not matter.
pub proof fn law_tier_of_an_event(m: HiCacheModel, event: RouterEvent, storage_tier: StorageTier)
    ensures
        !event.hicache_metadata && event.storage_tier != StorageTier::Device ==> m.apply_event(
            event,
        ) == m && m.event_tokens(event) == 0,
        event.hicache_metadata ==> {
            let moved = RouterEvent { storage_tier, ..event };
            m.apply_event(moved) == m.apply_event(event) && m.event_tokens(moved)
                == m.event_tokens(event)
        },
{
    lemma_page_traffic(m);
}

/// Two hierarchies that differ in the count of device traffic alone.
spec fn same_but_traffic(a: HiCacheModel, b: HiCacheModel) -> bool {
    a == (HiCacheModel { d2h_tokens: a.d2h_tokens, ..b })
}

proof fn lemma_store_in_two_parts(
    a: HiCacheModel,
    b: HiCacheModel,
    worker: WorkerWithDpRank,
    first: Seq<u64>,
    second: Seq<u64>,
    device: ComponentMask,
    offered: ComponentMask,
)
    requires
        same_but_traffic(b, a.store_blocks(worker, first, device, offered)),
    ensures
        same_but_traffic(
            b.store_blocks(worker, second, device, offered),
            a.store_blocks(worker, first + second, device, offered),
        ),
        a.store_blocks_adds(worker, first + second, device, offered) == a.store_blocks_adds(
            worker,
            first,
            device,
            offered,
        ) + b.store_blocks_adds(worker, second, device, offered),
    decreases second.len(),
{
    if second.len() == 0 {
        assert(first + second =~= first);
    } else {
        lemma_store_in_two_parts(a, b, worker, first, second.drop_last(), device, offered);
        assert((first + second).drop_last() =~= first + second.drop_last());
        assert((first + second).last() == second.last());
    }
}

proof fn lemma_remove_in_two_parts(
    a: HiCacheModel,
    b: HiCacheModel,
    worker: WorkerWithDpRank,
    first: Seq<u64>,
    second: Seq<u64>,
)
    ensures
        same_but_traffic(b, a.remove_blocks(worker, first)) ==> same_but_traffic(
            b.remove_blocks(worker, second),
            a.remove_blocks(worker, first + second),
        ),
        same_but_traffic(b, a.remove_blocks(worker, first)) ==> a.remove_blocks_adds(
            worker,
            first + second,
        ) == a.remove_blocks_adds(worker, first) + b.remove_blocks_adds(worker, second),
        same_but_traffic(b, a.remove_trailing_blocks(worker, first)) ==> same_but_traffic(
            b.remove_trailing_blocks(worker, second),
            a.remove_trailing_blocks(worker, first + second),
        ),
    decreases second.len(),
{
    if second.len() == 0 {
        assert(first + second =~= first);
    } else {
        lemma_remove_in_two_parts(a, b, worker, first, second.drop_last());
        assert((first + second).drop_last() =~= first + second.drop_last());
        assert((first + second).last() == second.last());
    }
}

proof fn lemma_traffic_adds_up(m: HiCacheModel, a: nat, b: nat)
    ensures
        m.page_tokens(a + b) == if m.page_tokens(a) + m.page_tokens(b) > usize::MAX {
            usize::MAX as int
        } else {
            m.page_tokens(a) + m.page_tokens(b)
        },
{
    let p = m.page_size as int;
    assert((a + b) * p == a * p + b * p && a * p >= 0 && b * p >= 0) by (nonlinear_arith)
        requires
            p >= 0,
            a >= 0,
            b >= 0,
    ;
}

/// The events concern the same rank in the same way, and `whole` reports what
/// `first` and then `second` report.
pub open spec fn is_in_two_parts(
    whole: RouterEvent,
    first: RouterEvent,
    second: RouterEvent,
) -> bool {
    &&& publisher(first) == publisher(whole) && publisher(second) == publisher(whole)
    &&& first.storage_tier == whole.storage_tier && second.storage_tier == whole.storage_tier
    &&& first.hicache_metadata == whole.hicache_metadata
    &&& second.hicache_metadata == whole.hicache_metadata
    &&& match (whole.event.data, first.event.data, second.event.data) {
        (
            KvCacheEventData::Stored(all),
            KvCacheEventData::Stored(a),
            KvCacheEventData::Stored(b),
        ) => all.blocks@ == a.blocks@ + b.blocks@,
        (
            KvCacheEventData::Removed(all),
            KvCacheEventData::Removed(a),
            KvCacheEventData::Removed(b),
        ) => all.block_hashes@ == a.block_hashes@ + b.block_hashes@,
        _ => false,
    }
}

/// Law: an event that reports several pages does what two events do that report
/// its first and its other pages: the tiers end the same, and the traffic is the
/// sum, cut off at the largest count.
pub proof fn law_event_in_two_parts(
    m: HiCacheModel,
    whole: RouterEvent,
    first: RouterEvent,
    second: RouterEvent,
)
    requires
        is_in_two_parts(whole, first, second),
    ensures
        ({
            let between = m.apply_event(first);
            let sum = m.event_tokens(first) + between.event_tokens(second);
            &&& m.apply_event(whole).workers == between.apply_event(second).workers
            &&& m.apply_event(whole).l3 == between.apply_event(second).l3
            &&& m.event_tokens(whole) == if sum > usize::MAX {
                usize::MAX as int
            } else {
                sum
            }
        }),
{
    let w = publisher(whole);
    let between = m.apply_event(first);
    m.lemma_after_event_frame(first);
    lemma_traffic_adds_up(m, m.event_adds(first), between.event_adds(second));
    lemma_page_traffic(m);
    match (whole.event.data, first.event.data, second.event.data) {
        (
            KvCacheEventData::Stored(all),
            KvCacheEventData::Stored(a),
            KvCacheEventData::Stored(b),
        ) => {
            assert(stored_hashes(all) =~= stored_hashes(a) + stored_hashes(b));
            let (s, t) = (stored_hashes(a), stored_hashes(b));
            if !HiCacheModel::ignores(whole) {
                if whole.hicache_metadata {
                    let d = trailing_only();
                    lemma_store_in_two_parts(m, between, w, s, t, d, d);
                } else {
                    lemma_store_in_two_parts(m, between, w, s, t, regular_only(), whole_page());
                }
            }
        },
        (
            KvCacheEventData::Removed(all),
            KvCacheEventData::Removed(a),
            KvCacheEventData::Removed(b),
        ) => {
            assert(hash_values(all.block_hashes@) =~= hash_values(a.block_hashes@) + hash_values(
                b.block_hashes@,
            ));
            lemma_remove_in_two_parts(
                m,
                between,
                w,
                hash_values(a.block_hashes@),
                hash_values(b.block_hashes@),
            );
        },
        _ => {},
    }
}

/// Law: an event that reaches a worker makes it known; one that does not changes
/// nothing.
pub proof fn law_events_that_reach_a_worker(m: HiCacheModel, event: RouterEvent)
    ensures
        HiCacheModel::reaches_worker(event) ==> m.apply_event(event).workers.contains_key(
            publisher(event),
        ),
        !HiCacheModel::reaches_worker(event) ==> m.apply_event(event) == m && m.event_tokens(event)
            == 0,
{
    lemma_page_traffic(m);
    let w = publisher(event);
    match event.event.data {
        KvCacheEventData::Stored(store) => {
            let hashes = stored_hashes(store);
            if hashes.len() > 0 {
                lemma_last_page_makes_known(m, w, hashes);
            }
        },
        KvCacheEventData::Removed(remove) => {
            let hashes = hash_values(remove.block_hashes@);
            if hashes.len() > 0 {
                lemma_last_page_makes_known(m, w, hashes);
            }
        },
        KvCacheEventData::Cleared => {},
    }
}

proof fn lemma_last_page_makes_known(m: HiCacheModel, worker: WorkerWithDpRank, hashes: Seq<u64>)
    requires
        hashes.len() > 0,
    ensures
        forall|d: ComponentMask, c: ComponentMask|
            (#[trigger] m.store_blocks(worker, hashes, d, c)).workers.contains_key(worker),
        m.remove_blocks(worker, hashes).workers.contains_key(worker),
        m.remove_trailing_blocks(worker, hashes).workers.contains_key(worker),
{
}

/// Law: a report of no pages does nothing.
pub proof fn law_empty_report_does_nothing(m: HiCacheModel, event: RouterEvent)
    requires
        match event.event.data {
            KvCacheEventData::Stored(store) => store.blocks@.len() == 0,
            KvCacheEventData::Removed(remove) => remove.block_hashes@.len() == 0,
            KvCacheEventData::Cleared => false,
        },
    ensures
        m.apply_event(event) == m,
        m.event_tokens(event) == 0,
{
    lemma_page_traffic(m);
}

/// Law: a backup does to the tiers what the insertion and the offer to the
/// shared tier do, and counts a page where its regular group came anew.
pub proof fn law_backup_effect(
    m: HiCacheModel,
    worker: WorkerWithDpRank,
    hash: u64,
    components: ComponentMask,
    other: WorkerWithDpRank,
)
    requires
        m.inv(),
    ensures
        ({
            let done = m.backup(worker, hash, components);
            let before = tier(m, worker);
            let after = tier(done, worker);
            &&& done.workers.contains_key(worker)
            &&& after == before.insert(hash, components)
            &&& host_regular(after, hash) <==> host_regular(before, hash) || (components.regular
                && (host_regular_count(before) < before.full_capacity || exists|p: u64|
                may_give_way(before, p)))
            &&& done.l3 == if host_regular(after, hash) {
                m.l3.put(hash, host_groups(after, hash))
            } else {
                m.l3
            }
            &&& m.page_tokens(m.backup_adds(worker, hash, components)) == if host_regular(
                after,
                hash,
            ) && !host_regular(before, hash) {
                m.page_size as int
            } else {
                0
            }
            &&& other != worker ==> {
                &&& done.workers.contains_key(other) <==> m.workers.contains_key(other)
                &&& m.workers.contains_key(other) ==> done.workers[other] == m.workers[other]
            }
            &&& done.config == m.config && done.page_size == m.page_size
            &&& done.d2h_tokens == m.d2h_tokens
            &&& done.l3_prefetched_pages == m.l3_prefetched_pages
        }),
{
    lemma_backup(m, worker, hash, components);
    lemma_page_traffic(m);
    lemma_tier_inv(m, worker);
    law_insert_brings_regular_group(tier(m, worker), hash, components);
}

/// Law: removing a worker forgets all its ranks and nothing else.
pub proof fn law_remove_worker_effect(m: HiCacheModel, worker_id: u64, w: WorkerWithDpRank)
    ensures
        ({
            let after = m.remove_worker(worker_id);
            &&& after.workers.contains_key(w) <==> m.workers.contains_key(w) && w.worker_id
                != worker_id
            &&& after.workers.contains_key(w) ==> after.workers[w] == m.workers[w]
            &&& after == (HiCacheModel { workers: after.workers, ..m })
        }),
{
}

} // verus!
