//! What the operations of a host tier do, told by the stored pages.

use crate::facts::{
    device_regular, device_serves, device_trailing, host_regular, host_regular_count, host_serves,
    host_trailing, host_trailing_count, may_give_way, next_stamp, same_page, used_before,
};
use crate::geometry::ComponentMask;
use crate::l2_laws::{
    lemma_admissions_keep_inv, lemma_refusal_means_stuck, law_offered_trailing_group_is_stored,
};
use crate::l2_model::{L2Model, ResidentPage};
use crate::prefix::{is_boundary, lemma_usable_prefix_bounds};
use vstd::prelude::*;

verus! {

/// Law: reading a tier gives what the stored pages say.
pub proof fn law_reads_show_the_pages(m: L2Model, hash: u64)
    ensures
        m.host(hash).regular == host_regular(m, hash),
        m.host(hash).trailing == host_trailing(m, hash),
        m.device(hash).regular == device_regular(m, hash),
        m.device(hash).trailing == device_trailing(m, hash),
        m.full_pages().contains(hash) == host_regular(m, hash),
        m.swa_pages().contains(hash) == host_trailing(m, hash),
        m.full_pages().len() == host_regular_count(m),
        m.swa_pages().len() == host_trailing_count(m),
{
}

/// Law: a new tier is empty and has the capacities that it was made with.
pub proof fn law_new_tier_is_empty(full: nat, swa: nat, hash: u64)
    ensures
        L2Model::fresh(full, swa).full_capacity == full,
        L2Model::fresh(full, swa).swa_capacity == swa,
        L2Model::fresh(full, swa).clock == 0,
        !L2Model::fresh(full, swa).pages.contains_key(hash),
{
}

/// `o` was used least recently of the pages that may give way.
pub open spec fn gives_way_first(m: L2Model, o: u64) -> bool {
    &&& may_give_way(m, o)
    &&& forall|p: u64| #[trigger]
        may_give_way(m, p) && p != o ==> used_before(
            m.pages[o].host_full_access,
            o,
            m.pages[p].host_full_access,
            p,
        )
}

proof fn lemma_gives_way_first(m: L2Model, o: u64)
    ensures
        gives_way_first(m, o) <==> m.is_full_victim(o),
{
    if gives_way_first(m, o) {
        assert forall|p: u64| #[trigger] m.evictable(p) && p != o implies crate::recency::older(
            (m.page(o).host_full_access, o),
            (m.page(p).host_full_access, p),
        ) by {
            assert(may_give_way(m, p));
        }
    }
    if m.is_full_victim(o) {
        assert forall|p: u64| #[trigger] may_give_way(m, p) && p != o implies used_before(
            m.pages[o].host_full_access,
            o,
            m.pages[p].host_full_access,
            p,
        ) by {
            assert(m.evictable(p));
        }
    }
}

spec fn after_regular(m: L2Model, hash: u64, components: ComponentMask) -> L2Model {
    if components.regular && !m.host(hash).regular {
        m.admit_regular(hash)
    } else {
        m
    }
}

/// Trailing admission and touching leave the regular groups as they are.
proof fn lemma_regular_groups_settle_first(
    m: L2Model,
    hash: u64,
    components: ComponentMask,
    o: u64,
)
    ensures
        host_regular(m.insert(hash, components), o) == host_regular(
            after_regular(m, hash, components),
            o,
        ),
{
    let a = after_regular(m, hash, components);
    let room = a.make_swa_room();
    assert(room.host(o).regular == a.host(o).regular);
    assert(room.host(hash).regular == a.host(hash).regular);
}

/// Law: an offered regular group comes to the host if one more fits or some page
/// may give way, and a group that is there stays.
pub proof fn law_insert_brings_regular_group(m: L2Model, hash: u64, components: ComponentMask)
    requires
        m.inv(),
    ensures
        host_regular(m.insert(hash, components), hash) <==> host_regular(m, hash) || (
        components.regular && (host_regular_count(m) < m.full_capacity || exists|p: u64|
            may_give_way(m, p))),
        m.insert_adds_full(hash, components) <==> !host_regular(m, hash) && host_regular(
            m.insert(hash, components),
            hash,
        ),
{
    lemma_regular_groups_settle_first(m, hash, components, hash);
    if components.regular && !m.host(hash).regular {
        if m.admit_regular(hash).host(hash).regular {
            if host_regular_count(m) >= m.full_capacity {
                let victim = m.full_victim()->0;
                if m.full_victim() is Some {
                    assert(m.is_full_victim(victim));
                    assert(may_give_way(m, victim));
                }
            }
        } else {
            lemma_refusal_means_stuck(m, hash);
            assert forall|p: u64| !may_give_way(m, p) by {
                assert(!m.evictable(p));
            }
        }
    }
}

/// Law: another page gains nothing by an insertion. It loses its regular group
/// exactly where the offered one needs its place and it is the first to give
/// way.
pub proof fn law_insert_takes_the_first_to_give_way(
    m: L2Model,
    hash: u64,
    components: ComponentMask,
    o: u64,
)
    requires
        m.inv(),
        o != hash,
    ensures
        host_regular(m.insert(hash, components), o) <==> host_regular(m, o) && !(
        components.regular && !host_regular(m, hash) && host_regular_count(m) >= m.full_capacity
            && gives_way_first(m, o)),
{
    lemma_regular_groups_settle_first(m, hash, components, o);
    lemma_gives_way_first(m, o);
    if let Some(victim) = m.full_victim() {
        assert(m.is_full_victim(victim));
        if m.is_full_victim(o) {
            m.lemma_full_victim(o);
        }
    } else if m.is_full_victim(o) {
        m.lemma_full_victim(o);
    }
}

/// Trailing groups that are left once the regular groups have settled.
pub open spec fn trailing_left(m: L2Model, after: L2Model) -> Set<u64> {
    m.pages.dom().filter(|h: u64| m.pages[h].host.trailing && host_regular(after, h))
}

/// `o` was used least recently of the trailing groups that are left.
pub open spec fn trailing_goes_first(m: L2Model, after: L2Model, o: u64) -> bool {
    &&& trailing_left(m, after).contains(o)
    &&& forall|p: u64| #[trigger]
        trailing_left(m, after).contains(p) && p != o ==> used_before(
            m.pages[o].host_swa_access,
            o,
            m.pages[p].host_swa_access,
            p,
        )
}

proof fn lemma_trailing_left(m: L2Model, hash: u64, components: ComponentMask)
    requires
        m.inv(),
    ensures
        ({
            let after = m.insert(hash, components);
            let a = after_regular(m, hash, components);
            &&& a.inv()
            &&& a.swa_pages() == trailing_left(m, after)
            &&& a.swa_capacity == m.swa_capacity
            &&& forall|o: u64| #[trigger]
                a.swa_pages().contains(o) ==> a.pages[o].host_swa_access
                    == m.pages[o].host_swa_access
        }),
{
    let after = m.insert(hash, components);
    let a = after_regular(m, hash, components);
    lemma_admissions_keep_inv(m, hash);
    assert forall|o: u64| a.swa_pages().contains(o) <==> trailing_left(m, after).contains(o) by {
        lemma_regular_groups_settle_first(m, hash, components, o);
        if let Some(victim) = m.full_victim() {
            assert(m.is_full_victim(victim));
        }
    }
    assert(a.swa_pages() =~= trailing_left(m, after));
}

proof fn lemma_trailing_goes_first(m: L2Model, hash: u64, components: ComponentMask, o: u64)
    requires
        m.inv(),
    ensures
        trailing_goes_first(m, m.insert(hash, components), o) <==> after_regular(
            m,
            hash,
            components,
        ).is_swa_victim(o),
{
    let after = m.insert(hash, components);
    let a = after_regular(m, hash, components);
    lemma_trailing_left(m, hash, components);
    let left = trailing_left(m, after);
    if trailing_goes_first(m, after, o) {
        assert(a.swa_pages().contains(o));
        assert forall|p: u64|
            #![trigger a.host(p)]
            a.host(p).trailing && p != o implies crate::recency::older(
            (a.page(o).host_swa_access, o),
            (a.page(p).host_swa_access, p),
        ) by {
            assert(a.swa_pages().contains(p));
            assert(left.contains(p));
        }
    }
    if a.is_swa_victim(o) {
        assert(a.swa_pages().contains(o));
        assert forall|p: u64| #[trigger] left.contains(p) && p != o implies used_before(
            m.pages[o].host_swa_access,
            o,
            m.pages[p].host_swa_access,
            p,
        ) by {
            assert(a.swa_pages().contains(p));
            assert(a.host(p).trailing);
        }
    }
}

/// Law: an offered trailing group is on the host beside its regular group, if
/// the host can hold trailing groups at all; one that is there stays, and none
/// comes unoffered.
pub proof fn law_insert_brings_trailing_group(m: L2Model, hash: u64, components: ComponentMask)
    requires
        m.inv(),
    ensures
        host_trailing(m.insert(hash, components), hash) <==> host_trailing(m, hash) || (
        components.trailing && host_regular(m.insert(hash, components), hash) && m.swa_capacity
            > 0),
{
    let after = m.insert(hash, components);
    let a = after_regular(m, hash, components);
    lemma_regular_groups_settle_first(m, hash, components, hash);
    lemma_trailing_left(m, hash, components);
    if components.trailing && host_regular(after, hash) && m.swa_capacity > 0 {
        law_offered_trailing_group_is_stored(m, hash, components);
    }
    if m.swa_capacity == 0 {
        assert(!host_trailing(m, hash)) by {
            if host_trailing(m, hash) {
                assert(m.swa_pages().contains(hash));
            }
        }
    }
    if host_trailing(m, hash) {
        assert(a == m);
    } else {
        assert(!a.host(hash).trailing);
        let room = a.make_swa_room();
        assert(!room.host(hash).trailing);
        if m.swa_capacity == 0 {
            assert(room.swa_capacity == 0);
        }
    }
}

/// Law: another page loses its trailing group with its regular group, or where
/// an offered trailing group needs its place and it is the first to go.
pub proof fn law_insert_takes_the_first_trailing_group(
    m: L2Model,
    hash: u64,
    components: ComponentMask,
    o: u64,
)
    requires
        m.inv(),
        o != hash,
    ensures
        ({
            let after = m.insert(hash, components);
            host_trailing(after, o) <==> host_trailing(m, o) && host_regular(after, o) && !(
            components.trailing && host_regular(after, hash) && !host_trailing(m, hash)
                && trailing_left(m, after).len() >= m.swa_capacity && trailing_goes_first(
                m,
                after,
                o,
            ))
        }),
{
    let after = m.insert(hash, components);
    let a = after_regular(m, hash, components);
    lemma_regular_groups_settle_first(m, hash, components, hash);
    lemma_regular_groups_settle_first(m, hash, components, o);
    lemma_trailing_left(m, hash, components);
    lemma_trailing_goes_first(m, hash, components, o);
    assert(a.swa_pages().contains(o) == trailing_left(m, after).contains(o));
    assert(a.host(o).trailing == (host_trailing(m, o) && host_regular(after, o)));
    assert(a.host(hash).trailing == host_trailing(m, hash)) by {
        assert(a.swa_pages().contains(hash) == trailing_left(m, after).contains(hash));
    }
    if let Some(victim) = a.swa_victim() {
        assert(a.is_swa_victim(victim));
    }
    if a.is_swa_victim(o) {
        a.lemma_swa_victim(o);
    }
}

/// Admitting a regular group changes the host groups of pages alone.
proof fn lemma_admit_regular_pages(m: L2Model, hash: u64, o: u64)
    requires
        m.inv(),
        !m.host(hash).regular,
    ensures
        ({
            let a = m.admit_regular(hash);
            &&& a.clock == m.clock
            &&& a.full_capacity == m.full_capacity && a.swa_capacity == m.swa_capacity
            &&& o != hash ==> (a.pages.contains_key(o) <==> m.pages.contains_key(o) && (
            host_regular(a, o) || !host_regular(m, o) || device_regular(m, o) || device_trailing(
                m,
                o,
            )))
            &&& a.pages.contains_key(hash) <==> m.pages.contains_key(hash) || host_regular(a, hash)
            &&& m.pages.contains_key(o) && a.pages.contains_key(o) ==> a.pages[o] == (
            ResidentPage { host: a.pages[o].host, ..m.pages[o] })
            &&& device_regular(a, o) == device_regular(m, o)
            &&& device_trailing(a, o) == device_trailing(m, o)
        }),
{
    if let Some(victim) = m.full_victim() {
        assert(m.is_full_victim(victim));
        assert(m.evictable(victim));
        assert(victim != hash);
    }
}

/// Admitting a trailing group changes the host groups of pages alone.
proof fn lemma_admit_trailing_pages(m: L2Model, hash: u64, o: u64)
    requires
        m.inv(),
        m.host(hash).regular,
    ensures
        ({
            let b = m.admit_trailing(hash);
            &&& b.clock == m.clock
            &&& b.full_capacity == m.full_capacity && b.swa_capacity == m.swa_capacity
            &&& b.pages.contains_key(o) <==> m.pages.contains_key(o)
            &&& m.pages.contains_key(o) ==> b.pages[o] == (ResidentPage {
                host: b.pages[o].host,
                ..m.pages[o]
            })
            &&& host_regular(b, o) == host_regular(m, o)
        }),
{
    if let Some(victim) = m.swa_victim() {
        assert(m.is_swa_victim(victim));
        assert(m.host(victim).regular);
    }
}

/// Law: an insertion marks what the host then holds of the page as used now. It
/// changes neither what is known of devices nor the marks of other pages, and
/// forgets a page only where nothing of it is left.
pub proof fn law_insert_marks_use(m: L2Model, hash: u64, components: ComponentMask, o: u64)
    requires
        m.inv(),
    ensures
        ({
            let after = m.insert(hash, components);
            &&& after.full_capacity == m.full_capacity && after.swa_capacity == m.swa_capacity
            &&& after.pages.contains_key(hash) <==> m.pages.contains_key(hash) || host_regular(
                after,
                hash,
            )
            &&& after.clock == if after.pages.contains_key(hash) {
                next_stamp(m.clock)
            } else {
                m.clock as int
            }
            &&& host_regular(after, hash) ==> after.pages[hash].host_full_access == after.clock
            &&& host_trailing(after, hash) ==> after.pages[hash].host_swa_access == after.clock
            &&& device_regular(after, o) == device_regular(m, o)
            &&& device_trailing(after, o) == device_trailing(m, o)
            &&& m.pages.contains_key(o) && after.pages.contains_key(o) ==> {
                &&& after.pages[o].device_swa_access == m.pages[o].device_swa_access
                &&& o != hash || !host_regular(after, o) ==> after.pages[o].host_full_access
                    == m.pages[o].host_full_access
                &&& o != hash || !host_trailing(after, o) ==> after.pages[o].host_swa_access
                    == m.pages[o].host_swa_access
            }
            &&& o != hash ==> (after.pages.contains_key(o) <==> m.pages.contains_key(o) && (
            host_regular(after, o) || !host_regular(m, o) || device_regular(m, o)
                || device_trailing(m, o)))
        }),
{
    let after = m.insert(hash, components);
    let a = after_regular(m, hash, components);
    lemma_admissions_keep_inv(m, hash);
    lemma_regular_groups_settle_first(m, hash, components, o);
    lemma_regular_groups_settle_first(m, hash, components, hash);
    if components.regular && !m.host(hash).regular {
        lemma_admit_regular_pages(m, hash, o);
        lemma_admit_regular_pages(m, hash, hash);
    }
    assert(a.inv());
    if components.trailing && a.host(hash).regular && !a.host(hash).trailing {
        lemma_admit_trailing_pages(a, hash, o);
        lemma_admit_trailing_pages(a, hash, hash);
        law_touch_effect(a.admit_trailing(hash), hash, o);
        assert(after == a.admit_trailing(hash).touch(hash));
    } else {
        law_touch_effect(a, hash, o);
        assert(after == a.touch(hash));
    }
}

/// Law: touching marks what the host holds of a known page as used now, and
/// changes nothing else.
pub proof fn law_touch_effect(m: L2Model, hash: u64, o: u64)
    ensures
        ({
            let after = m.touch(hash);
            &&& !m.pages.contains_key(hash) ==> after == m
            &&& o != hash ==> same_page(after, m, o)
            &&& after.full_capacity == m.full_capacity && after.swa_capacity == m.swa_capacity
            &&& m.pages.contains_key(hash) ==> {
                let page = m.pages[hash];
                &&& after.clock == next_stamp(m.clock)
                &&& after.pages.contains_key(hash)
                &&& after.pages[hash] == (ResidentPage {
                    host_full_access: if page.host.regular {
                        after.clock
                    } else {
                        page.host_full_access
                    },
                    host_swa_access: if page.host.trailing {
                        after.clock
                    } else {
                        page.host_swa_access
                    },
                    ..page
                })
            }
        }),
{
}

/// Law: touching the device boundary marks a trailing group that the device
/// holds as used now, and changes nothing else.
pub proof fn law_touch_device_boundary_effect(m: L2Model, hash: u64, o: u64)
    ensures
        ({
            let after = m.touch_device_boundary(hash);
            &&& !device_trailing(m, hash) ==> after == m
            &&& o != hash ==> same_page(after, m, o)
            &&& after.full_capacity == m.full_capacity && after.swa_capacity == m.swa_capacity
            &&& device_trailing(m, hash) ==> {
                &&& after.clock == next_stamp(m.clock)
                &&& after.pages.contains_key(hash)
                &&& after.pages[hash] == (ResidentPage {
                    device_swa_access: after.clock,
                    ..m.pages[hash]
                })
            }
        }),
{
}

/// Law: a store report adds the reported groups to what the device holds, marks
/// its trailing group used, and changes nothing of the host or of other pages.
pub proof fn law_mark_device_stored_effect(
    m: L2Model,
    hash: u64,
    components: ComponentMask,
    o: u64,
)
    ensures
        ({
            let after = m.mark_device_stored(hash, components);
            &&& after.pages.contains_key(hash)
            &&& device_regular(after, hash) == (device_regular(m, hash) || components.regular)
            &&& device_trailing(after, hash) == (device_trailing(m, hash) || components.trailing)
            &&& host_regular(after, hash) == host_regular(m, hash)
            &&& host_trailing(after, hash) == host_trailing(m, hash)
            &&& m.pages.contains_key(hash) ==> after.pages[hash].host_full_access
                == m.pages[hash].host_full_access && after.pages[hash].host_swa_access
                == m.pages[hash].host_swa_access
            &&& after.clock == if device_trailing(after, hash) {
                next_stamp(m.clock)
            } else {
                m.clock as int
            }
            &&& device_trailing(after, hash) ==> after.pages[hash].device_swa_access == after.clock
            &&& o != hash ==> same_page(after, m, o)
            &&& after.full_capacity == m.full_capacity && after.swa_capacity == m.swa_capacity
        }),
{
}

/// Law: a removal report takes the page off the device, or its trailing group
/// alone; what the host holds stays with its marks, and a page of which nothing
/// is left is forgotten.
pub proof fn law_device_removals_effect(m: L2Model, hash: u64, o: u64)
    ensures
        ({
            let gone = m.mark_device_removed(hash);
            let cut = m.mark_device_trailing_removed(hash);
            &&& !device_regular(gone, hash) && !device_trailing(gone, hash)
            &&& device_regular(cut, hash) == device_regular(m, hash)
            &&& !device_trailing(cut, hash)
            &&& gone.pages.contains_key(hash) <==> host_regular(m, hash) || host_trailing(m, hash)
            &&& cut.pages.contains_key(hash) <==> host_regular(m, hash) || host_trailing(m, hash)
                || device_regular(m, hash)
            &&& gone.pages.contains_key(hash) ==> gone.pages[hash] == (ResidentPage {
                device: gone.pages[hash].device,
                ..m.pages[hash]
            })
            &&& cut.pages.contains_key(hash) ==> cut.pages[hash] == (ResidentPage {
                device: cut.pages[hash].device,
                ..m.pages[hash]
            })
            &&& o != hash ==> same_page(gone, m, o) && same_page(cut, m, o)
            &&& gone.clock == m.clock && cut.clock == m.clock
            &&& gone.full_capacity == m.full_capacity && gone.swa_capacity == m.swa_capacity
            &&& cut.full_capacity == m.full_capacity && cut.swa_capacity == m.swa_capacity
        }),
{
}

/// Law: a clear leaves nothing on the device and everything on the host, marks
/// included.
pub proof fn law_clear_device_effect(m: L2Model, o: u64)
    ensures
        ({
            let after = m.clear_device();
            &&& !device_regular(after, o) && !device_trailing(after, o)
            &&& host_regular(after, o) == host_regular(m, o)
            &&& host_trailing(after, o) == host_trailing(m, o)
            &&& after.pages.contains_key(o) <==> host_regular(m, o) || host_trailing(m, o)
            &&& after.pages.contains_key(o) ==> after.pages[o] == (ResidentPage {
                device: after.pages[o].device,
                ..m.pages[o]
            })
            &&& after.clock == m.clock
            &&& after.full_capacity == m.full_capacity && after.swa_capacity == m.swa_capacity
        }),
{
}

/// Law: taking a page off the host takes both its groups, taking the trailing
/// group off takes that alone; the device and other pages are not touched.
pub proof fn law_host_removals_effect(m: L2Model, hash: u64, o: u64)
    ensures
        ({
            let gone = m.remove_regular(hash);
            let cut = m.remove_trailing(hash);
            &&& !host_regular(gone, hash) && !host_trailing(gone, hash)
            &&& host_regular(cut, hash) == host_regular(m, hash)
            &&& !host_trailing(cut, hash)
            &&& gone.pages.contains_key(hash) <==> device_regular(m, hash) || device_trailing(
                m,
                hash,
            )
            &&& cut.pages.contains_key(hash) <==> host_regular(m, hash) || device_regular(m, hash)
                || device_trailing(m, hash)
            &&& gone.pages.contains_key(hash) ==> gone.pages[hash] == (ResidentPage {
                host: gone.pages[hash].host,
                ..m.pages[hash]
            })
            &&& cut.pages.contains_key(hash) ==> cut.pages[hash] == (ResidentPage {
                host: cut.pages[hash].host,
                ..m.pages[hash]
            })
            &&& o != hash ==> same_page(gone, m, o) && same_page(cut, m, o)
            &&& gone.clock == m.clock && cut.clock == m.clock
        }),
{
}

/// Law: the host extends a device prefix to the farthest end that it can serve,
/// or not at all.
pub proof fn law_extension_is_farthest(m: L2Model, sequence: Seq<u64>, from: int, k: int)
    requires
        0 <= from,
    ensures
        m.extension(sequence, from) >= 0,
        m.extension(sequence, from) > 0 ==> host_serves(
            m,
            sequence,
            from,
            from + m.extension(sequence, from),
        ),
        host_serves(m, sequence, from, k) ==> k <= from + m.extension(sequence, from),
{
    let masks = m.host_masks(sequence);
    lemma_usable_prefix_bounds(masks, from);
    let end = from + m.extension(sequence, from);
    if end > from {
        assert(is_boundary(masks, from, end));
        assert forall|i: int| from <= i < end implies host_regular(m, #[trigger] sequence[i]) by {
            assert(masks[i].regular);
        }
        assert(masks[end - 1].trailing);
    }
    if host_serves(m, sequence, from, k) {
        assert forall|i: int| from <= i < k implies (#[trigger] masks[i]).regular by {
            assert(host_regular(m, sequence[i]));
        }
        assert(is_boundary(masks, from, k));
    }
}

/// Law: the device prefix is the farthest end that the device can serve.
pub proof fn law_device_prefix_is_farthest(m: L2Model, sequence: Seq<u64>, k: int)
    ensures
        m.device_prefix(sequence) >= 0,
        m.device_prefix(sequence) > 0 ==> device_serves(m, sequence, m.device_prefix(sequence)),
        device_serves(m, sequence, k) ==> k <= m.device_prefix(sequence),
{
    let masks = m.device_masks(sequence);
    lemma_usable_prefix_bounds(masks, 0);
    let end = m.device_prefix(sequence);
    if end > 0 {
        assert(is_boundary(masks, 0, end));
        assert forall|i: int| 0 <= i < end implies device_regular(m, #[trigger] sequence[i]) by {
            assert(masks[i].regular);
        }
        assert(masks[end - 1].trailing);
    }
    if device_serves(m, sequence, k) {
        assert forall|i: int| 0 <= i < k implies (#[trigger] masks[i]).regular by {
            assert(device_regular(m, sequence[i]));
        }
        assert(is_boundary(masks, 0, k));
    }
}

} // verus!
