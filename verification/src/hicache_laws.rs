//! Laws of the whole hierarchy.

use crate::geometry::{no_components, ComponentMask};
use crate::hicache_model::{regular_only, trailing_only, whole_page, HiCacheModel};
use crate::l2_laws::{
    is_stuck, law_device_pages_stay_on_host, law_device_reports, law_device_reports_keep_host,
    law_host_changes_keep_device, law_host_gains_only_the_inserted_page, law_invariant_is_kept,
    law_offered_trailing_group_is_stored, law_resident_insert_adds_nothing,
    law_stored_page_is_admitted_or_stuck,
};
use crate::l2_model::L2Model;
use crate::l3_laws::{law_accepted_put_is_stored, law_touch_keeps_contents};
use crate::l3_model::{lemma_stored_bytes_nonneg, lemma_stored_bytes_remove, L3Page};
use crate::prefix::{
    is_boundary, lemma_nothing_usable, lemma_usable_prefix, lemma_usable_prefix_bounds, usable_prefix,
};
use crate::protocols::{
    hash_values, stored_hashes, KvCacheEventData, RouterEvent, SglangHiCacheWritePolicy,
    WorkerWithDpRank,
};
use vstd::prelude::*;

verus! {

/// Two hierarchies that differ in the shared tier alone.
pub open spec fn same_but_l3(a: HiCacheModel, b: HiCacheModel) -> bool {
    a == (HiCacheModel { l3: a.l3, ..b })
}

proof fn lemma_store_ignores_l3(
    a: HiCacheModel,
    b: HiCacheModel,
    worker: WorkerWithDpRank,
    hashes: Seq<u64>,
    device: ComponentMask,
    offered: ComponentMask,
)
    requires
        same_but_l3(a, b),
    ensures
        a.store_blocks_adds(worker, hashes, device, offered) == b.store_blocks_adds(
            worker,
            hashes,
            device,
            offered,
        ),
        same_but_l3(
            a.store_blocks(worker, hashes, device, offered),
            b.store_blocks(worker, hashes, device, offered),
        ),
    decreases hashes.len(),
{
    if hashes.len() > 0 {
        lemma_store_ignores_l3(a, b, worker, hashes.drop_last(), device, offered);
    }
}

proof fn lemma_remove_ignores_l3(
    a: HiCacheModel,
    b: HiCacheModel,
    worker: WorkerWithDpRank,
    hashes: Seq<u64>,
)
    requires
        same_but_l3(a, b),
    ensures
        a.remove_blocks_adds(worker, hashes) == b.remove_blocks_adds(worker, hashes),
        same_but_l3(a.remove_blocks(worker, hashes), b.remove_blocks(worker, hashes)),
        same_but_l3(
            a.remove_trailing_blocks(worker, hashes),
            b.remove_trailing_blocks(worker, hashes),
        ),
    decreases hashes.len(),
{
    if hashes.len() > 0 {
        lemma_remove_ignores_l3(a, b, worker, hashes.drop_last());
    }
}

/// Law: the device traffic of an event and its effect on the host tiers do not
/// depend on the shared tier: a full, rejecting or absent one changes neither.
pub proof fn law_traffic_ignores_l3(a: HiCacheModel, b: HiCacheModel, event: RouterEvent)
    requires
        same_but_l3(a, b),
    ensures
        a.event_tokens(event) == b.event_tokens(event),
        same_but_l3(a.apply_event(event), b.apply_event(event)),
{
    let worker = event.source();
    match event.event.data {
        KvCacheEventData::Stored(store) => {
            let hashes = stored_hashes(store);
            lemma_store_ignores_l3(a, b, worker, hashes, trailing_only(), trailing_only());
            lemma_store_ignores_l3(a, b, worker, hashes, regular_only(), whole_page());
        },
        KvCacheEventData::Removed(remove) => {
            lemma_remove_ignores_l3(a, b, worker, hash_values(remove.block_hashes@));
        },
        KvCacheEventData::Cleared => {},
    }
}

/// `b` holds what `a` holds of every worker rank but `worker`.
pub open spec fn others_same(a: HiCacheModel, b: HiCacheModel, worker: WorkerWithDpRank) -> bool {
    a.workers.remove(worker) == b.workers.remove(worker)
}

proof fn lemma_store_is_local(
    m: HiCacheModel,
    worker: WorkerWithDpRank,
    hashes: Seq<u64>,
    device: ComponentMask,
    offered: ComponentMask,
)
    ensures
        others_same(m.store_blocks(worker, hashes, device, offered), m, worker),
    decreases hashes.len(),
{
    if hashes.len() > 0 {
        lemma_store_is_local(m, worker, hashes.drop_last(), device, offered);
        let before = m.store_blocks(worker, hashes.drop_last(), device, offered);
        let after = m.store_blocks(worker, hashes, device, offered);
        assert(after.workers.remove(worker) =~= before.workers.remove(worker));
    }
}

proof fn lemma_remove_is_local(m: HiCacheModel, worker: WorkerWithDpRank, hashes: Seq<u64>)
    ensures
        others_same(m.remove_blocks(worker, hashes), m, worker),
        others_same(m.remove_trailing_blocks(worker, hashes), m, worker),
    decreases hashes.len(),
{
    if hashes.len() > 0 {
        lemma_remove_is_local(m, worker, hashes.drop_last());
        let before = m.remove_blocks(worker, hashes.drop_last());
        let after = m.remove_blocks(worker, hashes);
        assert(after.workers.remove(worker) =~= before.workers.remove(worker));
        let before = m.remove_trailing_blocks(worker, hashes.drop_last());
        let after = m.remove_trailing_blocks(worker, hashes);
        assert(after.workers.remove(worker) =~= before.workers.remove(worker));
    }
}

/// Law: an event changes the host tier of the rank that published it and of no
/// other.
pub proof fn law_events_are_local(m: HiCacheModel, event: RouterEvent)
    ensures
        others_same(m.apply_event(event), m, event.source()),
{
    let worker = event.source();
    match event.event.data {
        KvCacheEventData::Stored(store) => {
            let hashes = stored_hashes(store);
            lemma_store_is_local(m, worker, hashes, trailing_only(), trailing_only());
            lemma_store_is_local(m, worker, hashes, regular_only(), whole_page());
        },
        KvCacheEventData::Removed(remove) => {
            lemma_remove_is_local(m, worker, hash_values(remove.block_hashes@));
        },
        KvCacheEventData::Cleared => {},
    }
    assert(m.after_event(event).workers.remove(worker) =~= m.workers.remove(worker));
}

/// Law: events of other tiers than the device, not on the metadata sideband,
/// change nothing.
pub proof fn law_ignored_events_change_nothing(m: HiCacheModel, event: RouterEvent)
    requires
        HiCacheModel::ignores(event),
    ensures
        m.apply_event(event) == m,
        m.event_tokens(event) == 0,
{
    assert(0 * m.page_size as int == 0);
}

/// Law: a backup of a page whose regular group is on the host creates no new
/// device traffic.
pub proof fn law_resident_backup_is_free(
    m: HiCacheModel,
    worker: WorkerWithDpRank,
    hash: u64,
    components: ComponentMask,
)
    requires
        m.worker(worker).host(hash).regular,
    ensures
        m.backup_adds(worker, hash, components) == 0,
{
}

proof fn lemma_insert_of_resident_page(
    l2: L2Model,
    hash: u64,
    components: ComponentMask,
    o: u64,
)
    requires
        l2.host(hash).regular,
        l2.host(o).regular,
    ensures
        l2.insert(hash, components).host(o).regular,
{
    let room = l2.make_swa_room();
    assert(room.host(o).regular);
    assert(room.host(hash).regular);
}

proof fn lemma_store_of_resident_page(
    m: HiCacheModel,
    worker: WorkerWithDpRank,
    hash: u64,
    device: ComponentMask,
    offered: ComponentMask,
    o: u64,
)
    requires
        m.worker(worker).host(hash).regular,
        m.worker(worker).host(o).regular,
    ensures
        m.store_block_adds(worker, hash, device, offered) == 0,
        m.store_block(worker, hash, device, offered).worker(worker).host(o).regular,
{
    let marked = m.worker(worker).mark_device_stored(hash, device);
    assert(marked.host(hash).regular);
    assert(marked.host(o).regular);
    lemma_insert_of_resident_page(marked, hash, offered, o);
    let stored = m.with_worker(worker, marked);
    assert(stored.worker(worker) == marked);
}

proof fn lemma_store_of_resident_pages(
    m: HiCacheModel,
    worker: WorkerWithDpRank,
    hashes: Seq<u64>,
    device: ComponentMask,
    offered: ComponentMask,
    o: u64,
)
    requires
        forall|i: int|
            0 <= i < hashes.len() ==> m.worker(worker).host(#[trigger] hashes[i]).regular,
        m.worker(worker).host(o).regular,
    ensures
        m.store_blocks_adds(worker, hashes, device, offered) == 0,
        m.store_blocks(worker, hashes, device, offered).worker(worker).host(o).regular,
    decreases hashes.len(),
{
    if hashes.len() > 0 {
        let shorter = hashes.drop_last();
        let hash = hashes.last();
        assert(hash == hashes[hashes.len() - 1]);
        assert forall|i: int| 0 <= i < shorter.len() implies m.worker(worker).host(
            #[trigger] shorter[i],
        ).regular by {
            assert(shorter[i] == hashes[i]);
        }
        lemma_store_of_resident_pages(m, worker, shorter, device, offered, hash);
        lemma_store_of_resident_pages(m, worker, shorter, device, offered, o);
        let before = m.store_blocks(worker, shorter, device, offered);
        lemma_store_of_resident_page(before, worker, hash, device, offered, o);
    }
}

proof fn lemma_remove_of_resident_page(
    m: HiCacheModel,
    worker: WorkerWithDpRank,
    hash: u64,
    o: u64,
)
    requires
        m.worker(worker).host(hash).regular,
        m.worker(worker).host(o).regular,
    ensures
        m.remove_block_adds(worker, hash) == 0,
        m.remove_block(worker, hash).worker(worker).host(o).regular,
{
    let l2 = m.worker(worker);
    lemma_insert_of_resident_page(l2, hash, l2.device(hash), o);
    let saved = m.backup(worker, hash, l2.device(hash));
    assert(saved.worker(worker) == l2.insert(hash, l2.device(hash)));
}

proof fn lemma_remove_of_resident_pages(
    m: HiCacheModel,
    worker: WorkerWithDpRank,
    hashes: Seq<u64>,
    o: u64,
)
    requires
        forall|i: int|
            0 <= i < hashes.len() ==> m.worker(worker).host(#[trigger] hashes[i]).regular,
        m.worker(worker).host(o).regular,
    ensures
        m.remove_blocks_adds(worker, hashes) == 0,
        m.remove_blocks(worker, hashes).worker(worker).host(o).regular,
    decreases hashes.len(),
{
    if hashes.len() > 0 {
        let shorter = hashes.drop_last();
        let hash = hashes.last();
        assert(hash == hashes[hashes.len() - 1]);
        assert forall|i: int| 0 <= i < shorter.len() implies m.worker(worker).host(
            #[trigger] shorter[i],
        ).regular by {
            assert(shorter[i] == hashes[i]);
        }
        lemma_remove_of_resident_pages(m, worker, shorter, hash);
        lemma_remove_of_resident_pages(m, worker, shorter, o);
        let before = m.remove_blocks(worker, shorter);
        lemma_remove_of_resident_page(before, worker, hash, o);
    }
}

/// The pages that an event names, in order.
pub open spec fn named_pages(event: RouterEvent) -> Seq<u64> {
    match event.event.data {
        KvCacheEventData::Stored(store) => stored_hashes(store),
        KvCacheEventData::Removed(remove) => hash_values(remove.block_hashes@),
        KvCacheEventData::Cleared => Seq::empty(),
    }
}

/// Law: an event causes no device traffic where every page that it names has
/// its regular group on the host already.
pub proof fn law_resident_pages_cause_no_traffic(m: HiCacheModel, event: RouterEvent)
    requires
        forall|i: int|
            0 <= i < named_pages(event).len() ==> m.worker(event.source()).host(
                #[trigger] named_pages(event)[i],
            ).regular,
    ensures
        m.event_tokens(event) == 0,
{
    let hashes = named_pages(event);
    let worker = event.source();
    if hashes.len() > 0 {
        let o = hashes[0];
        lemma_store_of_resident_pages(m, worker, hashes, trailing_only(), trailing_only(), o);
        lemma_store_of_resident_pages(m, worker, hashes, regular_only(), whole_page(), o);
        lemma_remove_of_resident_pages(m, worker, hashes, o);
    }
    assert(0 * m.page_size as int == 0);
}

/// Offers of trailing groups alone bring no page to the host.
proof fn lemma_trailing_offers_are_free(
    m: HiCacheModel,
    worker: WorkerWithDpRank,
    hashes: Seq<u64>,
)
    ensures
        m.store_blocks_adds(worker, hashes, trailing_only(), trailing_only()) == 0,
    decreases hashes.len(),
{
    if hashes.len() > 0 {
        lemma_trailing_offers_are_free(m, worker, hashes.drop_last());
        let before = m.store_blocks(worker, hashes.drop_last(), trailing_only(), trailing_only());
        let marked = before.worker(worker).mark_device_stored(hashes.last(), trailing_only());
        assert(before.with_worker(worker, marked).worker(worker) == marked);
        assert(!marked.insert_adds_full(hashes.last(), trailing_only())) by {
            if !marked.host(hashes.last()).regular {
                assert(marked.insert(hashes.last(), trailing_only()) == marked.touch(
                    hashes.last(),
                ));
            }
        }
    }
}

/// A write-through store ends with all pages on host and device, or with a host
/// tier that takes no more.
proof fn lemma_store_settles(m: HiCacheModel, worker: WorkerWithDpRank, hashes: Seq<u64>)
    requires
        m.worker(worker).inv(),
        m.config.write_policy == SglangHiCacheWritePolicy::WriteThrough,
    ensures
        ({
            let l2 = m.store_blocks(worker, hashes, regular_only(), whole_page()).worker(worker);
            &&& l2.inv()
            &&& is_stuck(l2) || forall|i: int|
                0 <= i < hashes.len() ==> l2.host(#[trigger] hashes[i]).regular && l2.device(
                    hashes[i],
                ).regular
        }),
    decreases hashes.len(),
{
    if hashes.len() > 0 {
        let shorter = hashes.drop_last();
        let hash = hashes.last();
        lemma_store_settles(m, worker, shorter);
        m.lemma_store_blocks_frame(worker, shorter, regular_only(), whole_page());
        let before = m.store_blocks(worker, shorter, regular_only(), whole_page());
        let l2 = before.worker(worker);
        let marked = l2.mark_device_stored(hash, regular_only());
        let after = m.store_blocks(worker, hashes, regular_only(), whole_page()).worker(worker);
        assert(before.with_worker(worker, marked).worker(worker) == marked);
        assert(after == marked.insert(hash, whole_page()));
        law_stored_page_is_admitted_or_stuck(l2, hash);
        if !is_stuck(after) {
            assert forall|i: int| 0 <= i < hashes.len() implies after.host(
                #[trigger] hashes[i],
            ).regular && after.device(hashes[i]).regular by {
                if i < shorter.len() {
                    let o = hashes[i];
                    assert(shorter[i] == o);
                    law_device_reports_keep_host(l2, hash, regular_only(), o);
                    law_device_reports(l2, hash, regular_only(), o);
                    law_device_pages_stay_on_host(marked, hash, whole_page(), o);
                    law_host_changes_keep_device(marked, hash, whole_page(), o);
                }
            }
        }
    }
}

/// A host tier that takes no more causes no traffic.
proof fn lemma_stuck_store(m: HiCacheModel, worker: WorkerWithDpRank, hashes: Seq<u64>)
    requires
        m.worker(worker).inv(),
        is_stuck(m.worker(worker)),
        m.config.write_policy == SglangHiCacheWritePolicy::WriteThrough,
    ensures
        m.store_blocks_adds(worker, hashes, regular_only(), whole_page()) == 0,
        m.store_blocks(worker, hashes, regular_only(), whole_page()).worker(worker).inv(),
        is_stuck(m.store_blocks(worker, hashes, regular_only(), whole_page()).worker(worker)),
    decreases hashes.len(),
{
    if hashes.len() > 0 {
        let shorter = hashes.drop_last();
        let hash = hashes.last();
        lemma_stuck_store(m, worker, shorter);
        m.lemma_store_blocks_frame(worker, shorter, regular_only(), whole_page());
        let before = m.store_blocks(worker, shorter, regular_only(), whole_page());
        let l2 = before.worker(worker);
        let marked = l2.mark_device_stored(hash, regular_only());
        assert(before.with_worker(worker, marked).worker(worker) == marked);
        law_stored_page_is_admitted_or_stuck(l2, hash);
        law_device_reports_keep_host(l2, hash, regular_only(), hash);
    }
}

/// The device holds nothing of pages that it dropped.
proof fn lemma_removed_pages_are_gone(
    m: HiCacheModel,
    worker: WorkerWithDpRank,
    hashes: Seq<u64>,
    o: u64,
)
    ensures
        ({
            let after = m.remove_blocks(worker, hashes).worker(worker).device(o);
            after == if hashes.contains(o) {
                no_components()
            } else {
                m.worker(worker).device(o)
            }
        }),
    decreases hashes.len(),
{
    if hashes.len() > 0 {
        let shorter = hashes.drop_last();
        let hash = hashes.last();
        lemma_removed_pages_are_gone(m, worker, shorter, o);
        let before = m.remove_blocks(worker, shorter);
        let l2 = before.worker(worker);
        let components = l2.device(hash);
        let saved = before.backup(worker, hash, components);
        assert(saved.worker(worker) == l2.insert(hash, components));
        law_host_changes_keep_device(l2, hash, components, o);
        law_device_reports(l2, hash, components, o);
        law_device_reports(l2.insert(hash, components), hash, components, o);
        assert(hashes[hashes.len() - 1] == hash);
        if hashes.contains(o) {
            let i = choose|i: int| 0 <= i < hashes.len() && hashes[i] == o;
            if i < shorter.len() {
                assert(shorter[i] == o);
            }
        }
        if shorter.contains(o) {
            let i = choose|i: int| 0 <= i < shorter.len() && shorter[i] == o;
            assert(hashes[i] == o);
        }
    }
}

/// Pages of which the device holds nothing are dropped without traffic.
proof fn lemma_remove_of_absent_pages(m: HiCacheModel, worker: WorkerWithDpRank, hashes: Seq<u64>)
    requires
        forall|i: int|
            0 <= i < hashes.len() ==> m.worker(worker).device(#[trigger] hashes[i])
                == no_components(),
    ensures
        m.remove_blocks_adds(worker, hashes) == 0,
    decreases hashes.len(),
{
    if hashes.len() > 0 {
        let shorter = hashes.drop_last();
        let hash = hashes.last();
        assert(hash == hashes[hashes.len() - 1]);
        assert forall|i: int| 0 <= i < shorter.len() implies m.worker(worker).device(
            #[trigger] shorter[i],
        ) == no_components() by {
            assert(shorter[i] == hashes[i]);
        }
        lemma_remove_of_absent_pages(m, worker, shorter);
        lemma_removed_pages_are_gone(m, worker, shorter, hash);
        let l2 = m.remove_blocks(worker, shorter).worker(worker);
        assert(l2.device(hash) == no_components());
        law_resident_insert_adds_nothing(l2, hash, no_components());
    }
}

/// Law: an event that is repeated at once causes no device traffic the second
/// time.
pub proof fn law_repeated_event_causes_no_traffic(m: HiCacheModel, event: RouterEvent)
    requires
        m.inv(),
    ensures
        m.apply_event(event).event_tokens(event) == 0,
{
    let worker = event.source();
    let after = m.apply_event(event);
    m.lemma_after_event_frame(event);
    assert(m.worker(worker).inv()) by {
        if !m.workers.contains_key(worker) {
            assert(m.fresh_l2().full_pages() =~= Set::<u64>::empty());
            assert(m.fresh_l2().swa_pages() =~= Set::<u64>::empty());
        }
    }
    assert(after.worker(worker) == m.after_event(event).worker(worker));
    if !HiCacheModel::ignores(event) {
        match event.event.data {
            KvCacheEventData::Stored(store) => {
                let hashes = stored_hashes(store);
                if event.hicache_metadata {
                    lemma_trailing_offers_are_free(after, worker, hashes);
                } else if m.config.write_policy == SglangHiCacheWritePolicy::WriteBack {
                    lemma_quiet_store(after, worker, hashes, regular_only(), whole_page(), 0);
                } else {
                    lemma_store_settles(m, worker, hashes);
                    if is_stuck(after.worker(worker)) {
                        lemma_stuck_store(after, worker, hashes);
                    } else {
                        law_resident_pages_cause_no_traffic(after, event);
                    }
                }
            },
            KvCacheEventData::Removed(remove) => {
                let hashes = hash_values(remove.block_hashes@);
                if !event.hicache_metadata {
                    assert forall|i: int| 0 <= i < hashes.len() implies after.worker(worker).device(
                        #[trigger] hashes[i],
                    ) == no_components() by {
                        lemma_removed_pages_are_gone(m, worker, hashes, hashes[i]);
                    }
                    lemma_remove_of_absent_pages(after, worker, hashes);
                }
            },
            KvCacheEventData::Cleared => {},
        }
    }
    assert(0 * m.page_size as int == 0);
}

proof fn lemma_quiet_store(
    m: HiCacheModel,
    worker: WorkerWithDpRank,
    hashes: Seq<u64>,
    device: ComponentMask,
    offered: ComponentMask,
    o: u64,
)
    requires
        m.config.write_policy == SglangHiCacheWritePolicy::WriteBack,
    ensures
        m.store_blocks_adds(worker, hashes, device, offered) == 0,
        m.store_blocks(worker, hashes, device, offered).l3 == m.l3,
        m.store_blocks(worker, hashes, device, offered).worker(worker).host(o) == m.worker(
            worker,
        ).host(o),
    decreases hashes.len(),
{
    if hashes.len() > 0 {
        lemma_quiet_store(m, worker, hashes.drop_last(), device, offered, o);
        m.lemma_store_blocks_frame(worker, hashes.drop_last(), device, offered);
    }
}

/// Law: write-back waits for the device to drop a page: a stored event causes
/// no traffic and changes neither the host tier nor the shared tier.
pub proof fn law_write_back_waits_for_removal(m: HiCacheModel, event: RouterEvent, o: u64)
    requires
        m.config.write_policy == SglangHiCacheWritePolicy::WriteBack,
        event.event.data is Stored,
    ensures
        m.event_tokens(event) == 0,
        m.apply_event(event).l3 == m.l3,
        m.apply_event(event).worker(event.source()).host(o) == m.worker(event.source()).host(o),
{
    if let KvCacheEventData::Stored(store) = event.event.data {
        let hashes = stored_hashes(store);
        let worker = event.source();
        lemma_quiet_store(m, worker, hashes, trailing_only(), trailing_only(), o);
        lemma_quiet_store(m, worker, hashes, regular_only(), whole_page(), o);
        m.lemma_store_blocks_frame(worker, hashes, trailing_only(), trailing_only());
        m.lemma_store_blocks_frame(worker, hashes, regular_only(), whole_page());
    }
    assert(0 * m.page_size as int == 0);
}

proof fn lemma_quiet_remove(m: HiCacheModel, worker: WorkerWithDpRank, hashes: Seq<u64>, o: u64)
    ensures
        m.config.write_policy == SglangHiCacheWritePolicy::WriteThrough ==> {
            &&& m.remove_blocks_adds(worker, hashes) == 0
            &&& m.remove_blocks(worker, hashes).l3 == m.l3
            &&& m.remove_blocks(worker, hashes).worker(worker).host(o) == m.worker(worker).host(o)
        },
        m.remove_trailing_blocks(worker, hashes).l3 == m.l3,
        m.remove_trailing_blocks(worker, hashes).worker(worker).host(o) == m.worker(worker).host(o),
    decreases hashes.len(),
{
    if hashes.len() > 0 {
        lemma_quiet_remove(m, worker, hashes.drop_last(), o);
        m.lemma_remove_blocks_frame(worker, hashes.drop_last());
    }
}

/// Law: removals copy nothing under write-through, and metadata removals under
/// no policy: no traffic, and neither the host tier nor the shared tier
/// changes.
pub proof fn law_quiet_removals(m: HiCacheModel, event: RouterEvent, o: u64)
    requires
        event.event.data is Removed || event.event.data is Cleared,
        m.config.write_policy == SglangHiCacheWritePolicy::WriteThrough || event.hicache_metadata
            || event.event.data is Cleared,
    ensures
        m.event_tokens(event) == 0,
        m.apply_event(event).l3 == m.l3,
        m.apply_event(event).worker(event.source()).host(o) == m.worker(event.source()).host(o),
{
    m.lemma_after_event_frame(event);
    if let KvCacheEventData::Removed(remove) = event.event.data {
        lemma_quiet_remove(m, event.source(), hash_values(remove.block_hashes@), o);
    }
    assert(0 * m.page_size as int == 0);
}

/// Law: what a backup leaves on the host goes on to the shared tier, if the
/// regular group is there and the shared tier can take it.
pub proof fn law_backup_reaches_l3(
    m: HiCacheModel,
    worker: WorkerWithDpRank,
    hash: u64,
    components: ComponentMask,
)
    requires
        m.l3.inv(),
    ensures
        ({
            let after = m.backup(worker, hash, components);
            let stored = after.worker(worker).host(hash);
            stored.regular && m.l3.accepts(hash, stored) ==> after.l3.components(hash).covers(
                stored,
            )
        }),
{
    let stored = m.worker(worker).insert(hash, components).host(hash);
    if stored.regular && m.l3.accepts(hash, stored) {
        law_accepted_put_is_stored(m.l3, hash, stored);
    }
}

/// Law: a page that a backup leaves complete on the host is a hit in the shared
/// tier, if that can take it.
pub proof fn law_backed_up_page_is_shared(
    m: HiCacheModel,
    worker: WorkerWithDpRank,
    hash: u64,
    components: ComponentMask,
)
    requires
        m.l3.inv(),
        m.backup(worker, hash, components).worker(worker).host(hash) == whole_page(),
        m.l3.accepts(hash, whole_page()),
    ensures
        m.backup(worker, hash, components).l3.prefix(seq![hash]) == 1,
{
    law_backup_reaches_l3(m, worker, hash, components);
    let masks = m.backup(worker, hash, components).l3.masks(seq![hash]);
    assert(is_boundary(masks, 0, 1));
    lemma_usable_prefix(masks, 0, 1);
}

proof fn lemma_adds_at_most_blocks(
    m: HiCacheModel,
    worker: WorkerWithDpRank,
    hashes: Seq<u64>,
    device: ComponentMask,
    offered: ComponentMask,
)
    ensures
        m.store_blocks_adds(worker, hashes, device, offered) <= hashes.len(),
        m.remove_blocks_adds(worker, hashes) <= hashes.len(),
    decreases hashes.len(),
{
    if hashes.len() > 0 {
        lemma_adds_at_most_blocks(m, worker, hashes.drop_last(), device, offered);
    }
}

/// Law: an event causes at most one page of device traffic for each page that
/// it names.
pub proof fn law_traffic_is_bounded(m: HiCacheModel, event: RouterEvent)
    ensures
        m.event_tokens(event) <= m.page_size * match event.event.data {
            KvCacheEventData::Stored(store) => store.blocks@.len(),
            KvCacheEventData::Removed(remove) => remove.block_hashes@.len(),
            KvCacheEventData::Cleared => 0,
        },
{
    let worker = event.source();
    let blocks: nat = match event.event.data {
        KvCacheEventData::Stored(store) => store.blocks@.len(),
        KvCacheEventData::Removed(remove) => remove.block_hashes@.len(),
        KvCacheEventData::Cleared => 0,
    };
    match event.event.data {
        KvCacheEventData::Stored(store) => {
            let hashes = stored_hashes(store);
            lemma_adds_at_most_blocks(m, worker, hashes, trailing_only(), trailing_only());
            lemma_adds_at_most_blocks(m, worker, hashes, regular_only(), whole_page());
        },
        KvCacheEventData::Removed(remove) => {
            let hashes = hash_values(remove.block_hashes@);
            lemma_adds_at_most_blocks(m, worker, hashes, regular_only(), whole_page());
        },
        KvCacheEventData::Cleared => {},
    }
    let adds = m.event_adds(event);
    let p = m.page_size as int;
    assert(adds * p <= p * blocks) by (nonlinear_arith)
        requires
            adds <= blocks,
            p >= 0,
    ;
}

/// Law: a worker that was removed starts empty again, and no other worker
/// notices.
pub proof fn law_removed_worker_starts_empty(m: HiCacheModel, worker_id: u64, o: WorkerWithDpRank)
    ensures
        m.remove_worker(worker_id).worker(o) == if o.worker_id == worker_id {
            m.fresh_l2()
        } else {
            m.worker(o)
        },
        m.remove_worker(worker_id).l3 == m.l3,
{
}

/// Law: a shared tier without capacity stays empty and serves nothing.
pub proof fn law_l3_without_capacity_is_empty(m: HiCacheModel, sequence: Seq<u64>)
    requires
        m.inv(),
        m.l3.capacity_bytes == 0,
    ensures
        m.l3.pages == Map::<u64, L3Page>::empty(),
        m.l3.prefix(sequence) == 0,
{
    assert forall|h: u64| !m.l3.pages.contains_key(h) by {
        if m.l3.pages.contains_key(h) {
            lemma_stored_bytes_remove(m.l3.pages, h);
            lemma_stored_bytes_nonneg(m.l3.pages.remove(h));
        }
    }
    assert(m.l3.pages =~= Map::<u64, L3Page>::empty());
    lemma_nothing_usable(m.l3.masks(sequence), 0);
}

proof fn lemma_stage_is_local(
    m: HiCacheModel,
    worker: WorkerWithDpRank,
    hashes: Seq<u64>,
    o: u64,
)
    ensures
        others_same(m.stage_all(worker, hashes), m, worker),
        m.stage_all(worker, hashes).worker(worker).device(o) == m.worker(worker).device(o),
    decreases hashes.len(),
{
    if hashes.len() > 0 {
        lemma_stage_is_local(m, worker, hashes.drop_last(), o);
        m.lemma_stage_all_frame(worker, hashes.drop_last());
        let before = m.stage_all(worker, hashes.drop_last());
        let after = m.stage_all(worker, hashes);
        assert(after.workers.remove(worker) =~= before.workers.remove(worker));
        law_host_changes_keep_device(
            before.worker(worker),
            hashes.last(),
            before.l3.components(hashes.last()),
            o,
        );
    }
}

/// Law: a prefetch reports at least what the device serves and at most what
/// was selected, which is never more than the sequence.
pub proof fn law_prefetch_is_bounded(
    m: HiCacheModel,
    worker: WorkerWithDpRank,
    sequence: Seq<u64>,
    device_blocks: int,
)
    requires
        0 <= device_blocks <= sequence.len(),
    ensures
        device_blocks <= m.admitted(worker, sequence, device_blocks) <= m.prefetch_target(
            worker,
            sequence,
            device_blocks,
        ) <= sequence.len(),
{
    lemma_usable_prefix_bounds(m.worker(worker).host_masks(sequence), device_blocks);
    lemma_usable_prefix_bounds(m.l3.masks(sequence), 0);
    let staged = m.staged(worker, sequence, device_blocks);
    lemma_usable_prefix_bounds(staged.worker(worker).host_masks(sequence), device_blocks);
}

/// Law: what a prefetch reports can be served: the worker's host tier then
/// holds the regular group of every page between the device's part and the
/// reported end. No farther end within the selection can be served.
pub proof fn law_prefetch_can_be_served(
    m: HiCacheModel,
    worker: WorkerWithDpRank,
    sequence: Seq<u64>,
    device_blocks: int,
)
    requires
        0 <= device_blocks <= sequence.len(),
    ensures
        ({
            let l2 = m.prefetch(worker, sequence, device_blocks).worker(worker);
            let admitted = m.admitted(worker, sequence, device_blocks);
            &&& forall|i: int|
                device_blocks <= i < admitted ==> l2.host(#[trigger] sequence[i]).regular
            &&& forall|k: int|
                k <= m.prefetch_target(worker, sequence, device_blocks) && #[trigger] is_boundary(
                    l2.host_masks(sequence),
                    device_blocks,
                    k,
                ) ==> k <= admitted
        }),
{
    let l2 = m.prefetch(worker, sequence, device_blocks).worker(worker);
    let admitted = m.admitted(worker, sequence, device_blocks);
    let masks = l2.host_masks(sequence);
    lemma_usable_prefix_bounds(masks, device_blocks);
    lemma_usable_prefix_bounds(m.worker(worker).host_masks(sequence), device_blocks);
    lemma_usable_prefix_bounds(m.l3.masks(sequence), 0);
    let end = usable_prefix(masks, device_blocks);
    assert forall|i: int| device_blocks <= i < admitted implies l2.host(
        #[trigger] sequence[i],
    ).regular by {
        assert(is_boundary(masks, device_blocks, end));
        assert(masks[i].regular);
    }
}

/// What staging leaves on the host: the invariant is kept, and pages that are
/// not staged gain nothing.
proof fn lemma_stage_gains_only_staged(
    m: HiCacheModel,
    worker: WorkerWithDpRank,
    hashes: Seq<u64>,
    o: u64,
)
    requires
        m.worker(worker).inv(),
    ensures
        m.stage_all(worker, hashes).worker(worker).inv(),
        m.stage_all(worker, hashes).worker(worker).swa_capacity == m.worker(worker).swa_capacity,
        !hashes.contains(o) ==> m.worker(worker).host(o).covers(
            m.stage_all(worker, hashes).worker(worker).host(o),
        ),
    decreases hashes.len(),
{
    if hashes.len() > 0 {
        let shorter = hashes.drop_last();
        let hash = hashes.last();
        lemma_stage_gains_only_staged(m, worker, shorter, o);
        let before = m.stage_all(worker, shorter);
        let l2 = before.worker(worker);
        let components = before.l3.components(hash);
        law_invariant_is_kept(l2, hash, components);
        l2.lemma_insert_keeps(hash, components);
        if !hashes.contains(o) {
            assert(hashes[hashes.len() - 1] == hash);
            assert(!shorter.contains(o)) by {
                if shorter.contains(o) {
                    let i = choose|i: int| 0 <= i < shorter.len() && shorter[i] == o;
                    assert(hashes[i] == o);
                }
            }
            law_host_gains_only_the_inserted_page(l2, hash, components, o);
        }
    }
}

/// Law: where the selected pages do not recur after the selection, what a
/// prefetch reports ends with a page that has its trailing group on the host.
pub proof fn law_prefetch_ends_with_a_trailing_group(
    m: HiCacheModel,
    worker: WorkerWithDpRank,
    sequence: Seq<u64>,
    device_blocks: int,
)
    requires
        m.inv(),
        0 <= device_blocks <= sequence.len(),
        forall|i: int, j: int|
            0 <= i < m.prefetch_target(worker, sequence, device_blocks) <= j < sequence.len()
                ==> #[trigger] sequence[i] != #[trigger] sequence[j],
    ensures
        ({
            let l2 = m.prefetch(worker, sequence, device_blocks).worker(worker);
            let admitted = m.admitted(worker, sequence, device_blocks);
            admitted > device_blocks ==> is_boundary(
                l2.host_masks(sequence),
                device_blocks,
                admitted,
            ) && l2.host(sequence[admitted - 1]).trailing
        }),
{
    let target = m.prefetch_target(worker, sequence, device_blocks);
    let admitted = m.admitted(worker, sequence, device_blocks);
    let start = m.worker(worker).host_masks(sequence);
    let shared = m.l3.masks(sequence);
    let touched = m.touch_boundary(worker, sequence, device_blocks);
    let l2 = m.prefetch(worker, sequence, device_blocks).worker(worker);
    let masks = l2.host_masks(sequence);
    lemma_usable_prefix_bounds(start, device_blocks);
    lemma_usable_prefix_bounds(shared, 0);
    lemma_usable_prefix_bounds(masks, device_blocks);
    let local = usable_prefix(start, device_blocks);
    let end = usable_prefix(masks, device_blocks);
    assert(m.worker(worker).inv()) by {
        if !m.workers.contains_key(worker) {
            assert(m.fresh_l2().full_pages() =~= Set::<u64>::empty());
            assert(m.fresh_l2().swa_pages() =~= Set::<u64>::empty());
        }
    }
    if admitted > device_blocks {
        let picked = sequence.take(target);
        assert(l2 == touched.stage_all(worker, picked).worker(worker));
        assert(is_boundary(masks, device_blocks, end));
        assert(touched.worker(worker).inv()) by {
            if device_blocks > 0 {
                law_invariant_is_kept(
                    m.worker(worker),
                    sequence[device_blocks - 1],
                    no_components(),
                );
            }
        }
        if end > target {
            assert(admitted == target);
            if local >= m.l3.prefix(sequence) {
                assert forall|j: int| target <= j < end implies start[j].covers(
                    #[trigger] masks[j],
                ) by {
                    assert(!picked.contains(sequence[j])) by {
                        if picked.contains(sequence[j]) {
                            let i = choose|i: int| 0 <= i < picked.len() && picked[i] == sequence[j];
                            assert(sequence[i] == sequence[j]);
                        }
                    }
                    lemma_stage_gains_only_staged(touched, worker, picked, sequence[j]);
                    if device_blocks > 0 {
                        law_device_reports_keep_host(
                            m.worker(worker),
                            sequence[device_blocks - 1],
                            no_components(),
                            sequence[j],
                        );
                    }
                }
                assert(is_boundary(start, device_blocks, local));
                assert(masks[end - 1].trailing);
                assert(is_boundary(start, device_blocks, end)) by {
                    assert forall|i: int| device_blocks <= i < end implies (
                    #[trigger] start[i]).regular by {
                        if i >= target {
                            assert(masks[i].regular);
                            assert(start[i].covers(masks[i]));
                        }
                    }
                    assert(start[end - 1].covers(masks[end - 1]));
                }
            } else {
                assert(is_boundary(shared, 0, target));
                assert(shared[target - 1].trailing);
                let hash = sequence[target - 1];
                let shorter = picked.drop_last();
                assert(picked.last() == hash);
                let before = touched.stage_all(worker, shorter);
                touched.lemma_stage_all_frame(worker, shorter);
                lemma_stage_gains_only_staged(touched, worker, shorter, hash);
                lemma_stage_gains_only_staged(touched, worker, picked, hash);
                let components = before.l3.components(hash);
                assert(components == shared[target - 1]);
                assert(l2 == before.worker(worker).insert(hash, components));
                assert(masks[target - 1].regular);
                assert(masks[end - 1].trailing);
                assert(l2.swa_pages().contains(sequence[end - 1]));
                assert(l2.swa_capacity > 0);
                law_offered_trailing_group_is_stored(before.worker(worker), hash, components);
            }
            assert(masks[target - 1].trailing);
            assert(is_boundary(masks, device_blocks, target));
        }
        assert(masks[admitted - 1].trailing);
    }
}

/// Law: a prefetch changes no other worker, nothing that is known of devices,
/// and of the shared tier only the recency: no stored page and no counter.
pub proof fn law_prefetch_is_local(
    m: HiCacheModel,
    worker: WorkerWithDpRank,
    sequence: Seq<u64>,
    device_blocks: int,
    o: u64,
)
    ensures
        others_same(m.prefetch(worker, sequence, device_blocks), m, worker),
        m.prefetch(worker, sequence, device_blocks).worker(worker).device(o) == m.worker(
            worker,
        ).device(o),
        m.prefetch(worker, sequence, device_blocks).d2h_tokens == m.d2h_tokens,
        ({
            let l3 = m.prefetch(worker, sequence, device_blocks).l3;
            &&& l3.components(o) == m.l3.components(o)
            &&& l3.pages.contains_key(o) == m.l3.pages.contains_key(o)
            &&& l3.capacity_bytes == m.l3.capacity_bytes
            &&& l3.used_bytes == m.l3.used_bytes
            &&& l3.peak_bytes == m.l3.peak_bytes
            &&& l3.inserted_bytes == m.l3.inserted_bytes
            &&& l3.evicted_bytes == m.l3.evicted_bytes
            &&& l3.rejected_bytes == m.l3.rejected_bytes
            &&& l3.page_evictions == m.l3.page_evictions
        }),
{
    let touched = m.touch_boundary(worker, sequence, device_blocks);
    let target = m.prefetch_target(worker, sequence, device_blocks);
    assert(touched.workers.remove(worker) =~= m.workers.remove(worker));
    lemma_stage_is_local(touched, worker, sequence.take(target), o);
    touched.lemma_stage_all_frame(worker, sequence.take(target));
    law_touch_keeps_contents(m.l3, sequence.take(m.l3.prefix(sequence)), o);
}

/// Law: no worker's host tier holds more than the configured capacity.
pub proof fn law_residency_within_capacity(m: HiCacheModel, worker: WorkerWithDpRank)
    requires
        m.inv(),
        m.page_size > 0,
    ensures
        m.worker(worker).full_pages().len() <= m.config.l2_full_capacity_tokens / m.page_size,
        m.worker(worker).swa_pages().len() <= m.config.l2_swa_capacity_tokens / m.page_size,
{
    if !m.workers.contains_key(worker) {
        assert(m.fresh_l2().full_pages() =~= Set::<u64>::empty());
        assert(m.fresh_l2().swa_pages() =~= Set::<u64>::empty());
    }
}

proof fn lemma_sums_within_capacity(m: HiCacheModel, ranks: Set<WorkerWithDpRank>)
    requires
        m.inv(),
        m.page_size > 0,
        ranks.finite(),
        ranks.subset_of(m.workers.dom()),
    ensures
        m.full_sum(ranks) <= ranks.len() * (m.config.l2_full_capacity_tokens / m.page_size),
        m.swa_sum(ranks) <= ranks.len() * (m.config.l2_swa_capacity_tokens / m.page_size),
    decreases ranks.len(),
{
    if ranks.len() == 0 {
        ranks.lemma_len0_is_empty();
        m.lemma_sums_step(ranks, None);
    } else {
        let worker = ranks.choose();
        let fewer = ranks.remove(worker);
        lemma_sums_within_capacity(m, fewer);
        m.lemma_sums_step(fewer, Some(worker));
        assert(fewer.insert(worker) =~= ranks);
        law_residency_within_capacity(m, worker);
        let n = fewer.len() as int;
        let full = (m.config.l2_full_capacity_tokens / m.page_size) as int;
        let swa = (m.config.l2_swa_capacity_tokens / m.page_size) as int;
        assert((n + 1) * full == n * full + full) by (nonlinear_arith);
        assert((n + 1) * swa == n * swa + swa) by (nonlinear_arith);
    }
}

proof fn lemma_trailing_sum_within_full_sum(m: HiCacheModel, ranks: Set<WorkerWithDpRank>)
    requires
        m.inv(),
        ranks.finite(),
        ranks.subset_of(m.workers.dom()),
    ensures
        m.swa_sum(ranks) <= m.full_sum(ranks),
    decreases ranks.len(),
{
    if ranks.len() == 0 {
        ranks.lemma_len0_is_empty();
        m.lemma_sums_step(ranks, None);
    } else {
        let worker = ranks.choose();
        let fewer = ranks.remove(worker);
        lemma_trailing_sum_within_full_sum(m, fewer);
        m.lemma_sums_step(fewer, Some(worker));
        assert(fewer.insert(worker) =~= ranks);
        assert(m.workers.contains_key(worker));
        let l2 = m.workers[worker];
        assert(l2.swa_pages().subset_of(l2.full_pages()));
        vstd::set_lib::lemma_len_subset(l2.swa_pages(), l2.full_pages());
    }
}

/// Law: the host tiers together hold no more trailing groups than regular ones.
pub proof fn law_trailing_groups_do_not_outnumber_regular_ones(m: HiCacheModel)
    requires
        m.inv(),
    ensures
        m.total_swa_pages() <= m.total_full_pages(),
{
    lemma_trailing_sum_within_full_sum(m, m.workers.dom());
}

/// Law: the host tiers together hold no more than the configured capacity for
/// each worker rank.
pub proof fn law_totals_within_capacity(m: HiCacheModel)
    requires
        m.inv(),
        m.page_size > 0,
    ensures
        m.total_full_pages() <= m.workers.dom().len() * (m.config.l2_full_capacity_tokens
            / m.page_size),
        m.total_swa_pages() <= m.workers.dom().len() * (m.config.l2_swa_capacity_tokens
            / m.page_size),
{
    lemma_sums_within_capacity(m, m.workers.dom());
}

} // verus!
