//! What can be observed of the tiers, told by the stored pages alone.

use crate::hicache_model::HiCacheModel;
use crate::l2_model::L2Model;
use crate::l3_model::L3Model;
use crate::protocols::WorkerWithDpRank;
use vstd::prelude::*;

verus! {

pub open spec fn host_regular(l2: L2Model, hash: u64) -> bool {
    l2.pages.contains_key(hash) && l2.pages[hash].host.regular
}

pub open spec fn host_trailing(l2: L2Model, hash: u64) -> bool {
    l2.pages.contains_key(hash) && l2.pages[hash].host.trailing
}

pub open spec fn device_regular(l2: L2Model, hash: u64) -> bool {
    l2.pages.contains_key(hash) && l2.pages[hash].device.regular
}

pub open spec fn device_trailing(l2: L2Model, hash: u64) -> bool {
    l2.pages.contains_key(hash) && l2.pages[hash].device.trailing
}

/// On the host, and free to give way: the device does not hold it.
pub open spec fn may_give_way(l2: L2Model, hash: u64) -> bool {
    l2.pages.contains_key(hash) && l2.pages[hash].host.regular && !l2.pages[hash].device.regular
}

/// How many regular groups the host holds.
pub open spec fn host_regular_count(l2: L2Model) -> nat {
    l2.pages.dom().filter(|h: u64| l2.pages[h].host.regular).len()
}

/// How many trailing groups the host holds.
pub open spec fn host_trailing_count(l2: L2Model) -> nat {
    l2.pages.dom().filter(|h: u64| l2.pages[h].host.trailing).len()
}

/// An earlier use, or one at the same stamp of a smaller hash.
pub open spec fn used_before(stamp_a: u64, a: u64, stamp_b: u64, b: u64) -> bool {
    stamp_a < stamp_b || (stamp_a == stamp_b && a < b)
}

/// What a clock shows next: it stands still at its largest value.
pub open spec fn next_stamp(clock: u64) -> int {
    if clock < 0xFFFF_FFFF_FFFF_FFFF {
        clock + 1
    } else {
        clock as int
    }
}

/// A sum, or the largest `u64` where the sum is larger.
pub open spec fn capped(sum: int) -> int {
    if sum > 0xFFFF_FFFF_FFFF_FFFF {
        0xFFFF_FFFF_FFFF_FFFF
    } else {
        sum
    }
}

/// The two hold the same of a page, stamps included.
pub open spec fn same_page(a: L2Model, b: L2Model, hash: u64) -> bool {
    &&& a.pages.contains_key(hash) <==> b.pages.contains_key(hash)
    &&& a.pages.contains_key(hash) ==> a.pages[hash] == b.pages[hash]
}

pub open spec fn l3_regular(l3: L3Model, hash: u64) -> bool {
    l3.pages.contains_key(hash) && l3.pages[hash].components.regular
}

pub open spec fn l3_trailing(l3: L3Model, hash: u64) -> bool {
    l3.pages.contains_key(hash) && l3.pages[hash].components.trailing
}

/// Bytes of the given groups of a page.
pub open spec fn group_bytes(regular: bool, trailing: bool) -> int {
    (if regular { 998_208int } else { 0 }) + (if trailing { 8_160_000int } else { 0 })
}

/// The host tier of a rank; one that was not heard of has an empty one.
pub open spec fn tier(m: HiCacheModel, worker: WorkerWithDpRank) -> L2Model {
    if m.workers.contains_key(worker) {
        m.workers[worker]
    } else {
        L2Model {
            full_capacity: (m.config.l2_full_capacity_tokens / m.page_size) as nat,
            swa_capacity: (m.config.l2_swa_capacity_tokens / m.page_size) as nat,
            clock: 0,
            pages: Map::empty(),
        }
    }
}

/// The host can serve the pages from `from` up to `end`.
pub open spec fn host_serves(l2: L2Model, sequence: Seq<u64>, from: int, end: int) -> bool {
    &&& from < end <= sequence.len()
    &&& forall|i: int| from <= i < end ==> host_regular(l2, #[trigger] sequence[i])
    &&& host_trailing(l2, sequence[end - 1])
}

/// The device can serve the first `end` pages.
pub open spec fn device_serves(l2: L2Model, sequence: Seq<u64>, end: int) -> bool {
    &&& 0 < end <= sequence.len()
    &&& forall|i: int| 0 <= i < end ==> device_regular(l2, #[trigger] sequence[i])
    &&& device_trailing(l2, sequence[end - 1])
}

/// The shared tier can serve the first `end` pages.
pub open spec fn l3_serves(l3: L3Model, sequence: Seq<u64>, end: int) -> bool {
    &&& 0 < end <= sequence.len()
    &&& forall|i: int| 0 <= i < end ==> l3_regular(l3, #[trigger] sequence[i])
    &&& l3_trailing(l3, sequence[end - 1])
}

} // verus!
