//! What a prefetch does, told by the stored pages.

use crate::facts::{
    capped, device_trailing, host_regular, host_regular_count, host_serves, host_trailing,
    host_trailing_count, l3_regular, l3_serves, l3_trailing, tier,
};
use crate::geometry::{no_components, ComponentMask};
use crate::hicache_model::HiCacheModel;
use crate::l2_effects::{
    law_extension_is_farthest, law_insert_brings_regular_group, law_insert_brings_trailing_group,
    law_insert_marks_use, law_insert_takes_the_first_to_give_way,
    law_insert_takes_the_first_trailing_group, law_touch_device_boundary_effect, law_touch_effect,
    trailing_left,
};
use crate::l2_laws::law_invariant_is_kept;
use crate::l2_model::L2Model;
use crate::l3_effects::law_prefix_is_farthest;
use crate::protocols::WorkerWithDpRank;
use vstd::prelude::*;

verus! {

/// Either tier can serve the sequence up to `end`, the host from where the
/// device stops.
pub open spec fn some_tier_serves(
    m: HiCacheModel,
    worker: WorkerWithDpRank,
    sequence: Seq<u64>,
    device_blocks: int,
    end: int,
) -> bool {
    host_serves(tier(m, worker), sequence, device_blocks, end) || l3_serves(m.l3, sequence, end)
}

/// `end` is past what the device serves, some tier serves up to it, and none
/// serves farther.
pub open spec fn is_farthest_end(
    m: HiCacheModel,
    worker: WorkerWithDpRank,
    sequence: Seq<u64>,
    device_blocks: int,
    end: int,
) -> bool {
    &&& device_blocks < end
    &&& some_tier_serves(m, worker, sequence, device_blocks, end)
    &&& forall|k: int| #[trigger]
        some_tier_serves(m, worker, sequence, device_blocks, k) ==> k <= end
}

/// The tier of a rank once the last page that the device serves is marked used.
pub open spec fn with_boundary_used(
    m: HiCacheModel,
    worker: WorkerWithDpRank,
    sequence: Seq<u64>,
    device_blocks: int,
) -> L2Model {
    if device_blocks > 0 {
        tier(m, worker).touch_device_boundary(sequence[device_blocks - 1])
    } else {
        tier(m, worker)
    }
}

proof fn lemma_target(
    m: HiCacheModel,
    worker: WorkerWithDpRank,
    sequence: Seq<u64>,
    device_blocks: int,
    end: int,
)
    requires
        0 <= device_blocks <= sequence.len(),
    ensures
        is_farthest_end(m, worker, sequence, device_blocks, end) ==> m.prefetch_target(
            worker,
            sequence,
            device_blocks,
        ) == end,
        (forall|k: int| #[trigger]
            some_tier_serves(m, worker, sequence, device_blocks, k) ==> k <= device_blocks)
            ==> m.prefetch_target(worker, sequence, device_blocks) <= device_blocks,
{
    let l2 = tier(m, worker);
    assert(m.worker(worker) == l2);
    let local = m.local_end(worker, sequence, device_blocks);
    let shared = m.l3.prefix(sequence);
    law_extension_is_farthest(l2, sequence, device_blocks, end);
    law_prefix_is_farthest(m.l3, sequence, end);
    if local > device_blocks {
        assert(some_tier_serves(m, worker, sequence, device_blocks, local));
    }
    if shared > 0 {
        assert(some_tier_serves(m, worker, sequence, device_blocks, shared));
    }
}

/// Law: a prefetch selects the farthest end that the worker's host tier or the
/// shared tier can serve, whatever the device serves. It stages the pages up to
/// there, marks the pages that the shared tier serves as used there, and reports
/// where the host tier can then serve, within the selection.
pub proof fn law_prefetch_stages_the_farthest_end(
    m: HiCacheModel,
    worker: WorkerWithDpRank,
    sequence: Seq<u64>,
    device_blocks: int,
    end: int,
    shared: int,
)
    requires
        0 <= device_blocks <= sequence.len(),
        is_farthest_end(m, worker, sequence, device_blocks, end),
        shared == 0 || l3_serves(m.l3, sequence, shared),
        forall|k: int| #[trigger] l3_serves(m.l3, sequence, k) ==> k <= shared,
        shared >= 0,
    ensures
        ({
            let done = m.prefetch(worker, sequence, device_blocks);
            let admitted = m.admitted(worker, sequence, device_blocks);
            let after = tier(done, worker);
            let start = m.with_worker(
                worker,
                with_boundary_used(m, worker, sequence, device_blocks),
            );
            &&& done.workers.contains_key(worker)
            &&& after == tier(start.stage_all(worker, sequence.take(end)), worker)
            &&& done.l3 == m.l3.touch_all(sequence.take(shared))
            &&& device_blocks <= admitted <= end
            &&& forall|k: int|
                k <= end && #[trigger] host_serves(after, sequence, device_blocks, k) ==> k
                    <= admitted
            &&& device_blocks < admitted < end ==> host_serves(
                after,
                sequence,
                device_blocks,
                admitted,
            )
            &&& forall|i: int|
                device_blocks <= i < admitted ==> host_regular(after, #[trigger] sequence[i])
        }),
{
    lemma_target(m, worker, sequence, device_blocks, end);
    assert(m.worker(worker) == tier(m, worker));
    let l2 = with_boundary_used(m, worker, sequence, device_blocks);
    let start = m.with_worker(worker, l2);
    let touched = m.touch_boundary(worker, sequence, device_blocks);
    let picked = sequence.take(end);
    lemma_stage_starts_from_tier(touched, start, worker, picked);
    touched.lemma_stage_all_frame(worker, picked);
    law_prefix_is_farthest(m.l3, sequence, shared);
    assert(m.l3.prefix(sequence) == shared) by {
        if m.l3.prefix(sequence) > 0 {
            assert(l3_serves(m.l3, sequence, m.l3.prefix(sequence)));
        }
    }
    let done = m.prefetch(worker, sequence, device_blocks);
    let after = tier(done, worker);
    let admitted = m.admitted(worker, sequence, device_blocks);
    let staged = m.staged(worker, sequence, device_blocks);
    assert(staged.worker(worker) == after);
    let reach = staged.local_end(worker, sequence, device_blocks);
    assert forall|k: int|
        k <= end && #[trigger] host_serves(after, sequence, device_blocks, k) implies k
        <= admitted by {
        law_extension_is_farthest(after, sequence, device_blocks, k);
    }
    law_extension_is_farthest(after, sequence, device_blocks, end);
    if reach > device_blocks {
        assert(host_serves(after, sequence, device_blocks, reach));
    }
}

/// Staging starts from the rank's tier, whether or not it is listed.
proof fn lemma_stage_starts_from_tier(
    a: HiCacheModel,
    b: HiCacheModel,
    worker: WorkerWithDpRank,
    hashes: Seq<u64>,
)
    requires
        tier(a, worker) == tier(b, worker),
        a.l3 == b.l3,
        a.config == b.config,
        a.page_size == b.page_size,
    ensures
        tier(a.stage_all(worker, hashes), worker) == tier(b.stage_all(worker, hashes), worker),
        a.stage_all(worker, hashes).l3 == a.l3,
        b.stage_all(worker, hashes).l3 == a.l3,
        hashes.len() > 0 ==> a.stage_all(worker, hashes).workers.contains_key(worker),
    decreases hashes.len(),
{
    if hashes.len() > 0 {
        lemma_stage_starts_from_tier(a, b, worker, hashes.drop_last());
        a.lemma_stage_all_frame(worker, hashes.drop_last());
        b.lemma_stage_all_frame(worker, hashes.drop_last());
    }
}

/// Law: where no tier serves past the device, a prefetch only marks the last
/// page that the device serves as used, and reports what the device serves.
pub proof fn law_prefetch_of_nothing(
    m: HiCacheModel,
    worker: WorkerWithDpRank,
    sequence: Seq<u64>,
    device_blocks: int,
)
    requires
        0 <= device_blocks <= sequence.len(),
        forall|k: int| #[trigger]
            some_tier_serves(m, worker, sequence, device_blocks, k) ==> k <= device_blocks,
    ensures
        m.admitted(worker, sequence, device_blocks) == device_blocks,
        tier(m.prefetch(worker, sequence, device_blocks), worker) == with_boundary_used(
            m,
            worker,
            sequence,
            device_blocks,
        ),
        m.prefetch(worker, sequence, device_blocks) == (HiCacheModel {
            workers: m.prefetch(worker, sequence, device_blocks).workers,
            ..m
        }),
{
    lemma_target(m, worker, sequence, device_blocks, device_blocks);
    law_extension_is_farthest(tier(m, worker), sequence, device_blocks, device_blocks);
    assert(m.worker(worker) == tier(m, worker));
}

/// Law: a prefetch counts the reported pages past the farthest end that the
/// worker's own host tier could serve before.
pub proof fn law_prefetch_counts_what_it_gained(
    m: HiCacheModel,
    worker: WorkerWithDpRank,
    sequence: Seq<u64>,
    device_blocks: int,
    local: int,
)
    requires
        0 <= device_blocks <= sequence.len(),
        local == device_blocks || host_serves(tier(m, worker), sequence, device_blocks, local),
        forall|k: int| #[trigger]
            host_serves(tier(m, worker), sequence, device_blocks, k) ==> k <= local,
    ensures
        ({
            let admitted = m.admitted(worker, sequence, device_blocks);
            m.prefetch(worker, sequence, device_blocks).l3_prefetched_pages == capped(
                m.l3_prefetched_pages + if admitted > local {
                    admitted - local
                } else {
                    0
                },
            )
        }),
{
    assert(m.worker(worker) == tier(m, worker));
    law_extension_is_farthest(tier(m, worker), sequence, device_blocks, local);
    let found = m.local_end(worker, sequence, device_blocks);
    if found > device_blocks {
        assert(host_serves(tier(m, worker), sequence, device_blocks, found));
    }
    let target = m.prefetch_target(worker, sequence, device_blocks);
    if target > device_blocks {
        let touched = m.touch_boundary(worker, sequence, device_blocks);
        touched.lemma_stage_all_frame(worker, sequence.take(target));
    }
}

/// Law: staging one page more inserts what the shared tier holds of it, or marks
/// it used where that holds nothing; the shared tier and other ranks are as they
/// were.
pub proof fn law_staging_one_page_more(
    m: HiCacheModel,
    worker: WorkerWithDpRank,
    hashes: Seq<u64>,
    hash: u64,
)
    ensures
        m.stage_all(worker, Seq::empty()) == m,
        ({
            let before = tier(m.stage_all(worker, hashes), worker);
            let after = tier(m.stage_all(worker, hashes.push(hash)), worker);
            &&& after == if l3_regular(m.l3, hash) || l3_trailing(m.l3, hash) {
                before.insert(
                    hash,
                    ComponentMask {
                        regular: l3_regular(m.l3, hash),
                        trailing: l3_trailing(m.l3, hash),
                    },
                )
            } else {
                before.touch(hash)
            }
            &&& m.stage_all(worker, hashes.push(hash)).l3 == m.l3
        }),
{
    let longer = hashes.push(hash);
    assert(longer.drop_last() =~= hashes);
    m.lemma_stage_all_frame(worker, hashes);
    m.lemma_stage_all_frame(worker, longer);
    assert(m.l3.components(hash) == (ComponentMask {
        regular: l3_regular(m.l3, hash),
        trailing: l3_trailing(m.l3, hash),
    }));
}

/// One insertion where one regular group more fits.
proof fn lemma_insert_with_regular_room(l2: L2Model, hash: u64, components: ComponentMask, o: u64)
    requires
        l2.inv(),
        host_regular_count(l2) < l2.full_capacity,
    ensures
        ({
            let after = l2.insert(hash, components);
            &&& after.inv()
            &&& after.full_capacity == l2.full_capacity && after.swa_capacity == l2.swa_capacity
            &&& host_regular(after, o) <==> host_regular(l2, o) || (o == hash
                && components.regular)
            &&& host_regular_count(after) <= host_regular_count(l2) + 1
        }),
{
    let after = l2.insert(hash, components);
    law_invariant_is_kept(l2, hash, components);
    law_insert_brings_regular_group(l2, hash, components);
    law_insert_marks_use(l2, hash, components, o);
    assert forall|p: u64| p != hash implies host_regular(after, p) == host_regular(l2, p) by {
        law_insert_takes_the_first_to_give_way(l2, hash, components, p);
    }
    assert(after.full_pages().subset_of(l2.full_pages().insert(hash))) by {
        assert forall|p: u64| after.full_pages().contains(p) implies l2.full_pages().insert(
            hash,
        ).contains(p) by {
            if p != hash {
                assert(host_regular(after, p) == host_regular(l2, p));
            }
        }
    }
    vstd::set_lib::lemma_len_subset(after.full_pages(), l2.full_pages().insert(hash));
}

/// One insertion where one trailing group more fits.
proof fn lemma_insert_with_trailing_room(
    l2: L2Model,
    hash: u64,
    components: ComponentMask,
    o: u64,
)
    requires
        l2.inv(),
        host_regular_count(l2) < l2.full_capacity,
        host_trailing_count(l2) < l2.swa_capacity,
    ensures
        ({
            let after = l2.insert(hash, components);
            &&& host_trailing(after, o) <==> host_trailing(l2, o) || (o == hash
                && components.trailing && host_regular(after, hash))
            &&& host_trailing_count(after) <= host_trailing_count(l2) + 1
        }),
{
    let after = l2.insert(hash, components);
    law_invariant_is_kept(l2, hash, components);
    law_insert_brings_trailing_group(l2, hash, components);
    assert(trailing_left(l2, after).subset_of(l2.swa_pages()));
    vstd::set_lib::lemma_len_subset(trailing_left(l2, after), l2.swa_pages());
    assert forall|p: u64| p != hash implies host_trailing(after, p) == host_trailing(l2, p) by {
        law_insert_takes_the_first_trailing_group(l2, hash, components, p);
        lemma_insert_with_regular_room(l2, hash, components, p);
    }
    assert(after.swa_pages().subset_of(l2.swa_pages().insert(hash))) by {
        assert forall|p: u64| after.swa_pages().contains(p) implies l2.swa_pages().insert(
            hash,
        ).contains(p) by {
            if p != hash {
                assert(host_trailing(after, p) == host_trailing(l2, p));
            }
        }
    }
    vstd::set_lib::lemma_len_subset(after.swa_pages(), l2.swa_pages().insert(hash));
}

/// Touching changes nothing that the host holds.
proof fn lemma_touch_holds(l2: L2Model, hash: u64, o: u64)
    requires
        l2.inv(),
    ensures
        ({
            let after = l2.touch(hash);
            &&& after.inv()
            &&& after.full_capacity == l2.full_capacity && after.swa_capacity == l2.swa_capacity
            &&& host_regular(after, o) == host_regular(l2, o)
            &&& host_trailing(after, o) == host_trailing(l2, o)
            &&& host_regular_count(after) == host_regular_count(l2)
            &&& host_trailing_count(after) == host_trailing_count(l2)
        }),
{
    law_invariant_is_kept(l2, hash, no_components());
    law_touch_effect(l2, hash, o);
    assert(l2.touch(hash).full_pages() =~= l2.full_pages());
    assert(l2.touch(hash).swa_pages() =~= l2.swa_pages());
}

/// Staging where the regular groups of all staged pages fit.
proof fn lemma_stage_with_regular_room(
    m: HiCacheModel,
    worker: WorkerWithDpRank,
    hashes: Seq<u64>,
    o: u64,
)
    requires
        tier(m, worker).inv(),
        host_regular_count(tier(m, worker)) + hashes.len() <= tier(m, worker).full_capacity,
    ensures
        ({
            let before = tier(m, worker);
            let after = tier(m.stage_all(worker, hashes), worker);
            &&& after.inv()
            &&& after.full_capacity == before.full_capacity
            &&& after.swa_capacity == before.swa_capacity
            &&& host_regular(after, o) <==> host_regular(before, o) || (hashes.contains(o)
                && l3_regular(m.l3, o))
            &&& host_regular_count(after) <= host_regular_count(before) + hashes.len()
        }),
    decreases hashes.len(),
{
    if hashes.len() > 0 {
        let shorter = hashes.drop_last();
        let hash = hashes.last();
        assert(shorter.push(hash) =~= hashes);
        lemma_stage_with_regular_room(m, worker, shorter, o);
        law_staging_one_page_more(m, worker, shorter, hash);
        let l2 = tier(m.stage_all(worker, shorter), worker);
        let components = ComponentMask {
            regular: l3_regular(m.l3, hash),
            trailing: l3_trailing(m.l3, hash),
        };
        lemma_insert_with_regular_room(l2, hash, components, o);
        lemma_touch_holds(l2, hash, o);
        lemma_contains_step(shorter, hash, o);
    }
}

/// Staging where both groups of all staged pages fit.
proof fn lemma_stage_with_room(
    m: HiCacheModel,
    worker: WorkerWithDpRank,
    hashes: Seq<u64>,
    o: u64,
)
    requires
        tier(m, worker).inv(),
        host_regular_count(tier(m, worker)) + hashes.len() <= tier(m, worker).full_capacity,
        host_trailing_count(tier(m, worker)) + hashes.len() <= tier(m, worker).swa_capacity,
    ensures
        ({
            let before = tier(m, worker);
            let after = tier(m.stage_all(worker, hashes), worker);
            &&& host_trailing(after, o) <==> host_trailing(before, o) || (hashes.contains(o)
                && l3_trailing(m.l3, o) && host_regular(after, o))
            &&& host_trailing_count(after) <= host_trailing_count(before) + hashes.len()
        }),
    decreases hashes.len(),
{
    lemma_stage_with_regular_room(m, worker, hashes, o);
    if hashes.len() > 0 {
        let shorter = hashes.drop_last();
        let hash = hashes.last();
        assert(shorter.push(hash) =~= hashes);
        lemma_stage_with_room(m, worker, shorter, o);
        lemma_stage_with_regular_room(m, worker, shorter, o);
        law_staging_one_page_more(m, worker, shorter, hash);
        let l2 = tier(m.stage_all(worker, shorter), worker);
        let components = ComponentMask {
            regular: l3_regular(m.l3, hash),
            trailing: l3_trailing(m.l3, hash),
        };
        lemma_insert_with_regular_room(l2, hash, components, o);
        lemma_insert_with_trailing_room(l2, hash, components, o);
        lemma_touch_holds(l2, hash, o);
        lemma_contains_step(shorter, hash, o);
    }
}

proof fn lemma_contains_step(shorter: Seq<u64>, hash: u64, o: u64)
    ensures
        shorter.push(hash).contains(o) <==> shorter.contains(o) || o == hash,
{
    if shorter.contains(o) {
        let i = choose|i: int| 0 <= i < shorter.len() && shorter[i] == o;
        assert(shorter.push(hash)[i] == o);
    }
    assert(shorter.push(hash)[shorter.len() as int] == hash);
}

proof fn lemma_boundary_mark_holds(
    m: HiCacheModel,
    worker: WorkerWithDpRank,
    sequence: Seq<u64>,
    device_blocks: int,
    o: u64,
)
    requires
        tier(m, worker).inv(),
    ensures
        ({
            let before = tier(m, worker);
            let after = with_boundary_used(m, worker, sequence, device_blocks);
            &&& after.inv()
            &&& after.full_capacity == before.full_capacity
            &&& after.swa_capacity == before.swa_capacity
            &&& host_regular(after, o) == host_regular(before, o)
            &&& host_trailing(after, o) == host_trailing(before, o)
            &&& host_regular_count(after) == host_regular_count(before)
            &&& host_trailing_count(after) == host_trailing_count(before)
        }),
{
    let before = tier(m, worker);
    let after = with_boundary_used(m, worker, sequence, device_blocks);
    if device_blocks > 0 {
        let hash = sequence[device_blocks - 1];
        law_invariant_is_kept(before, hash, no_components());
        law_touch_device_boundary_effect(before, hash, o);
        assert(after.full_pages() =~= before.full_pages());
        assert(after.swa_pages() =~= before.swa_pages());
    }
}

proof fn lemma_tier_inv(m: HiCacheModel, worker: WorkerWithDpRank)
    requires
        m.inv(),
    ensures
        tier(m, worker).inv(),
{
    if !m.workers.contains_key(worker) {
        assert(tier(m, worker).full_pages() =~= Set::<u64>::empty());
        assert(tier(m, worker).swa_pages() =~= Set::<u64>::empty());
    }
}

/// Law: for any number of pages that the device serves, a prefetch reports the
/// whole prefix that the shared tier serves, where no tier serves farther, the
/// host has room for the regular groups and can hold trailing groups.
pub proof fn law_prefetch_reaches_the_shared_prefix(
    m: HiCacheModel,
    worker: WorkerWithDpRank,
    sequence: Seq<u64>,
    device_blocks: int,
    end: int,
)
    requires
        m.inv(),
        0 <= device_blocks <= sequence.len(),
        is_farthest_end(m, worker, sequence, device_blocks, end),
        l3_serves(m.l3, sequence, end),
        host_regular_count(tier(m, worker)) + end <= tier(m, worker).full_capacity,
        tier(m, worker).swa_capacity > 0,
    ensures
        m.admitted(worker, sequence, device_blocks) == end,
        forall|i: int|
            0 <= i < end ==> host_regular(
                tier(m.prefetch(worker, sequence, device_blocks), worker),
                #[trigger] sequence[i],
            ),
        host_trailing(
            tier(m.prefetch(worker, sequence, device_blocks), worker),
            sequence[end - 1],
        ),
{
    assert forall|k: int| #[trigger] l3_serves(m.l3, sequence, k) implies k <= end by {
        assert(some_tier_serves(m, worker, sequence, device_blocks, k));
    }
    law_prefetch_stages_the_farthest_end(m, worker, sequence, device_blocks, end, end);
    lemma_tier_inv(m, worker);
    let marked = with_boundary_used(m, worker, sequence, device_blocks);
    let start = m.with_worker(worker, marked);
    let picked = sequence.take(end);
    let after = tier(m.prefetch(worker, sequence, device_blocks), worker);
    lemma_boundary_mark_holds(m, worker, sequence, device_blocks, 0);
    assert(tier(start, worker) == marked);
    assert forall|i: int| 0 <= i < end implies host_regular(after, #[trigger] sequence[i]) by {
        lemma_stage_with_regular_room(start, worker, picked, sequence[i]);
        assert(picked[i] == sequence[i]);
        assert(l3_regular(m.l3, sequence[i]));
    }
    let shorter = picked.drop_last();
    let hash = sequence[end - 1];
    assert(shorter.push(hash) =~= picked);
    lemma_stage_with_regular_room(start, worker, shorter, hash);
    law_staging_one_page_more(start, worker, shorter, hash);
    let l2 = tier(start.stage_all(worker, shorter), worker);
    let components = ComponentMask {
        regular: l3_regular(m.l3, hash),
        trailing: l3_trailing(m.l3, hash),
    };
    law_insert_brings_trailing_group(l2, hash, components);
    assert(host_regular(after, sequence[end - 1]));
    assert(host_serves(after, sequence, device_blocks, end));
}

/// Law: where the host has room for both groups of all selected pages, a prefetch
/// reports the farthest end that any tier serves, for any number of pages that
/// the device serves. Each selected page is then on the host with what it had
/// there and what the shared tier holds of it, the trailing group beside the
/// regular one alone; other pages are as they were.
pub proof fn law_prefetch_with_room(
    m: HiCacheModel,
    worker: WorkerWithDpRank,
    sequence: Seq<u64>,
    device_blocks: int,
    end: int,
    o: u64,
)
    requires
        m.inv(),
        0 <= device_blocks <= sequence.len(),
        is_farthest_end(m, worker, sequence, device_blocks, end),
        host_regular_count(tier(m, worker)) + end <= tier(m, worker).full_capacity,
        host_trailing_count(tier(m, worker)) + end <= tier(m, worker).swa_capacity,
    ensures
        ({
            let before = tier(m, worker);
            let after = tier(m.prefetch(worker, sequence, device_blocks), worker);
            let selected = exists|i: int| 0 <= i < end && #[trigger] sequence[i] == o;
            &&& m.admitted(worker, sequence, device_blocks) == end
            &&& host_regular(after, o) <==> host_regular(before, o) || (selected && l3_regular(
                m.l3,
                o,
            ))
            &&& host_trailing(after, o) <==> host_trailing(before, o) || (selected && l3_trailing(
                m.l3,
                o,
            ) && host_regular(after, o))
        }),
{
    law_prefix_is_farthest(m.l3, sequence, end);
    let shared = m.l3.prefix(sequence);
    assert forall|k: int| #[trigger] l3_serves(m.l3, sequence, k) implies k <= shared by {
        law_prefix_is_farthest(m.l3, sequence, k);
    }
    law_prefetch_stages_the_farthest_end(m, worker, sequence, device_blocks, end, shared);
    lemma_tier_inv(m, worker);
    let marked = with_boundary_used(m, worker, sequence, device_blocks);
    let start = m.with_worker(worker, marked);
    let picked = sequence.take(end);
    let before = tier(m, worker);
    let after = tier(m.prefetch(worker, sequence, device_blocks), worker);
    assert(tier(start, worker) == marked);
    lemma_boundary_mark_holds(m, worker, sequence, device_blocks, o);
    lemma_stage_with_regular_room(start, worker, picked, o);
    lemma_stage_with_room(start, worker, picked, o);
    let selected = exists|i: int| 0 <= i < end && #[trigger] sequence[i] == o;
    assert(picked.contains(o) == selected) by {
        if picked.contains(o) {
            let i = choose|i: int| 0 <= i < picked.len() && picked[i] == o;
            assert(sequence[i] == o);
        }
        if selected {
            let i = choose|i: int| 0 <= i < end && #[trigger] sequence[i] == o;
            assert(picked[i] == o);
        }
    }
    assert(host_serves(after, sequence, device_blocks, end)) by {
        assert forall|i: int| device_blocks <= i < end implies host_regular(
            after,
            #[trigger] sequence[i],
        ) by {
            lemma_boundary_mark_holds(m, worker, sequence, device_blocks, sequence[i]);
            lemma_stage_with_regular_room(start, worker, picked, sequence[i]);
            assert(picked[i] == sequence[i]);
            if host_serves(before, sequence, device_blocks, end) {
                assert(host_regular(before, sequence[i]));
            } else {
                assert(l3_regular(m.l3, sequence[i]));
            }
        }
        let last = sequence[end - 1];
        lemma_boundary_mark_holds(m, worker, sequence, device_blocks, last);
        lemma_stage_with_room(start, worker, picked, last);
        assert(picked[end - 1] == last);
        assert(host_regular(after, last));
    }
}

/// Law: a prefetch marks the trailing group of the last page that the device
/// serves as the most recent of the device, as long as the clock has not run
/// out.
pub proof fn law_prefetch_marks_the_device_boundary(
    m: HiCacheModel,
    worker: WorkerWithDpRank,
    sequence: Seq<u64>,
    device_blocks: int,
)
    requires
        m.inv(),
        0 < device_blocks <= sequence.len(),
        device_trailing(tier(m, worker), sequence[device_blocks - 1]),
        tier(m, worker).clock < 0xFFFF_FFFF_FFFF_FFFF,
    ensures
        ({
            let after = tier(m.prefetch(worker, sequence, device_blocks), worker);
            let hash = sequence[device_blocks - 1];
            &&& device_trailing(after, hash)
            &&& after.pages[hash].device_swa_access == tier(m, worker).clock + 1
        }),
{
    let hash = sequence[device_blocks - 1];
    assert(m.worker(worker) == tier(m, worker));
    law_touch_device_boundary_effect(tier(m, worker), hash, hash);
    let touched = m.touch_boundary(worker, sequence, device_blocks);
    let target = m.prefetch_target(worker, sequence, device_blocks);
    lemma_tier_inv(m, worker);
    law_invariant_is_kept(tier(m, worker), hash, no_components());
    assert(tier(touched, worker) == with_boundary_used(m, worker, sequence, device_blocks));
    if target > device_blocks {
        lemma_stage_keeps_device_marks(touched, worker, sequence.take(target), hash);
    }
}

proof fn lemma_stage_keeps_device_marks(
    m: HiCacheModel,
    worker: WorkerWithDpRank,
    hashes: Seq<u64>,
    o: u64,
)
    requires
        tier(m, worker).inv(),
        device_trailing(tier(m, worker), o),
    ensures
        ({
            let after = tier(m.stage_all(worker, hashes), worker);
            &&& after.inv()
            &&& device_trailing(after, o)
            &&& after.pages[o].device_swa_access == tier(m, worker).pages[o].device_swa_access
        }),
    decreases hashes.len(),
{
    if hashes.len() > 0 {
        let shorter = hashes.drop_last();
        let hash = hashes.last();
        assert(shorter.push(hash) =~= hashes);
        lemma_stage_keeps_device_marks(m, worker, shorter, o);
        law_staging_one_page_more(m, worker, shorter, hash);
        let l2 = tier(m.stage_all(worker, shorter), worker);
        let components = ComponentMask {
            regular: l3_regular(m.l3, hash),
            trailing: l3_trailing(m.l3, hash),
        };
        law_invariant_is_kept(l2, hash, components);
        law_insert_marks_use(l2, hash, components, o);
        law_touch_effect(l2, hash, o);
    }
}

} // verus!
