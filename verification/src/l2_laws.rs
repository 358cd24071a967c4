//! Laws of a worker's host tier.

use crate::geometry::{no_components, ComponentMask};
use crate::l2_model::{tick, L2Model, ResidentPage};
use crate::recency::older;
use vstd::prelude::*;

verus! {

proof fn lemma_touches_keep_inv(m: L2Model, hash: u64)
    requires
        m.inv(),
    ensures
        m.touch(hash).inv(),
        m.touch_device_boundary(hash).inv(),
{
    let later = L2Model { clock: tick(m.clock), ..m };
    m.lemma_inv_later_clock(later.clock);
    assert(later.full_pages() =~= m.full_pages());
    assert(later.swa_pages() =~= m.swa_pages());
    if m.pages.contains_key(hash) {
        later.lemma_inv_with_page(hash, m.touch(hash).pages[hash]);
        later.lemma_inv_with_page(hash, m.touch_device_boundary(hash).pages[hash]);
    }
}

pub proof fn lemma_admissions_keep_inv(m: L2Model, hash: u64)
    requires
        m.inv(),
    ensures
        m.make_full_room().inv(),
        m.admit_regular(hash).inv(),
        m.host(hash).regular ==> m.admit_trailing(hash).inv(),
{
    let full = m.make_full_room();
    if let Some(victim) = m.full_victim() {
        assert(m.is_full_victim(victim));
        m.lemma_inv_with_page(victim, ResidentPage { host: no_components(), ..m.pages[victim] });
    }
    assert(full.inv());
    let page = full.page(hash);
    if full.full_pages().len() < full.full_capacity {
        full.lemma_inv_with_page(
            hash,
            ResidentPage { host: ComponentMask { regular: true, ..page.host }, ..page },
        );
    }
    let swa = m.make_swa_room();
    if let Some(victim) = m.swa_victim() {
        assert(m.is_swa_victim(victim));
        let page = m.pages[victim];
        m.lemma_inv_with_page(
            victim,
            ResidentPage { host: ComponentMask { trailing: false, ..page.host }, ..page },
        );
    }
    assert(swa.inv());
    if m.host(hash).regular && swa.swa_pages().len() < swa.swa_capacity {
        assert(swa.host(hash).regular);
        let page = swa.page(hash);
        swa.lemma_inv_with_page(
            hash,
            ResidentPage { host: ComponentMask { trailing: true, ..page.host }, ..page },
        );
    }
}

/// Law: what holds of every host tier is kept: residency within capacity, a
/// trailing group only beside its regular group, no stamp after the clock.
pub proof fn law_invariant_is_kept(m: L2Model, hash: u64, components: ComponentMask)
    requires
        m.inv(),
    ensures
        m.insert(hash, components).inv(),
        m.touch(hash).inv(),
        m.touch_device_boundary(hash).inv(),
        m.mark_device_stored(hash, components).inv(),
        m.mark_device_removed(hash).inv(),
        m.mark_device_trailing_removed(hash).inv(),
        m.clear_device().inv(),
        m.remove_regular(hash).inv(),
        m.remove_trailing(hash).inv(),
{
    lemma_touches_keep_inv(m, hash);
    lemma_admissions_keep_inv(m, hash);
    let a = if components.regular && !m.host(hash).regular {
        m.admit_regular(hash)
    } else {
        m
    };
    lemma_admissions_keep_inv(a, hash);
    let b = if components.trailing && a.host(hash).regular && !a.host(hash).trailing {
        a.admit_trailing(hash)
    } else {
        a
    };
    lemma_touches_keep_inv(b, hash);
    let page = m.page(hash);
    let stored = ResidentPage { device: page.device.joined(components), ..page };
    m.lemma_inv_with_page(hash, stored);
    lemma_touches_keep_inv(m.with_page(hash, stored), hash);
    if m.pages.contains_key(hash) {
        m.lemma_inv_with_page(hash, ResidentPage { device: no_components(), ..page });
        m.lemma_inv_with_page(
            hash,
            ResidentPage { device: ComponentMask { trailing: false, ..page.device }, ..page },
        );
        m.lemma_inv_with_page(hash, ResidentPage { host: no_components(), ..page });
        m.lemma_inv_with_page(
            hash,
            ResidentPage { host: ComponentMask { trailing: false, ..page.host }, ..page },
        );
    }
    let cleared = m.clear_device();
    assert(cleared.pages.dom().subset_of(m.pages.dom()));
    assert(cleared.full_pages() =~= m.full_pages());
    assert(cleared.swa_pages() =~= m.swa_pages());
}

/// Law: an insertion brings groups of no other page to the host.
pub proof fn law_host_gains_only_the_inserted_page(
    m: L2Model,
    hash: u64,
    components: ComponentMask,
    o: u64,
)
    requires
        o != hash,
    ensures
        m.host(o).covers(m.insert(hash, components).host(o)),
{
    let a = if components.regular && !m.host(hash).regular {
        m.admit_regular(hash)
    } else {
        m
    };
    assert(m.host(o).covers(m.make_full_room().host(o)));
    assert(m.host(o).covers(a.host(o)));
    assert(a.host(o).covers(a.make_swa_room().host(o)));
}

/// Law: an offered trailing group is on the host after an insertion that leaves
/// the regular group there, if the host can hold trailing groups at all.
pub proof fn law_offered_trailing_group_is_stored(
    m: L2Model,
    hash: u64,
    components: ComponentMask,
)
    requires
        m.inv(),
        components.trailing,
        m.swa_capacity > 0,
        m.insert(hash, components).host(hash).regular,
    ensures
        m.insert(hash, components).host(hash).trailing,
{
    let a = if components.regular && !m.host(hash).regular {
        m.admit_regular(hash)
    } else {
        m
    };
    lemma_admissions_keep_inv(m, hash);
    let room = a.make_swa_room();
    assert(room.host(hash).regular == a.host(hash).regular);
    assert(a.host(hash).regular);
    if !a.host(hash).trailing && a.swa_pages().len() >= a.swa_capacity {
        assert(a.swa_capacity == m.swa_capacity);
        let o = a.swa_pages().choose();
        assert(a.swa_pages().contains(o));
        a.lemma_swa_victim_exists(o);
        let victim = a.swa_victim()->0;
        let page = a.pages[victim];
        a.lemma_with_page_residency(
            victim,
            ResidentPage { host: ComponentMask { trailing: false, ..page.host }, ..page },
        );
        assert(a.swa_pages().contains(victim));
        assert(room.swa_pages().len() < room.swa_capacity);
    }
}

/// No regular group more fits, and none can give way.
pub open spec fn is_stuck(m: L2Model) -> bool {
    m.full_pages().len() >= m.full_capacity && forall|o: u64| !#[trigger] m.evictable(o)
}

/// Law: a page that the device stores and that is then offered whole is on the
/// host afterwards, unless no regular group more fits and none can give way;
/// and from then on this remains so.
pub proof fn law_stored_page_is_admitted_or_stuck(m: L2Model, hash: u64)
    requires
        m.inv(),
    ensures
        ({
            let marked = m.mark_device_stored(
                hash,
                ComponentMask { regular: true, trailing: false },
            );
            let after = marked.insert(hash, ComponentMask { regular: true, trailing: true });
            &&& after.inv()
            &&& after.device(hash).regular
            &&& after.host(hash).regular || is_stuck(after)
            &&& is_stuck(m) ==> is_stuck(after) && after.host(hash).regular == m.host(hash).regular
        }),
{
    let regular = ComponentMask { regular: true, trailing: false };
    let whole = ComponentMask { regular: true, trailing: true };
    let marked = m.mark_device_stored(hash, regular);
    let after = marked.insert(hash, whole);
    law_invariant_is_kept(m, hash, regular);
    law_invariant_is_kept(marked, hash, whole);
    assert forall|o: u64| #[trigger] after.device(o) == marked.device(o) by {
        law_host_changes_keep_device(marked, hash, whole, o);
    }
    assert(marked.full_pages() =~= m.full_pages());
    assert(is_stuck(m) ==> is_stuck(marked)) by {
        assert forall|o: u64| is_stuck(m) implies !#[trigger] marked.evictable(o) by {
            assert(!m.evictable(o));
        }
    }
    if !marked.host(hash).regular {
        let a = marked.admit_regular(hash);
        if is_stuck(marked) {
            if let Some(victim) = marked.full_victim() {
                assert(marked.is_full_victim(victim));
                assert(marked.evictable(victim));
            }
            assert(a == marked);
        } else if !a.host(hash).regular {
            lemma_refusal_means_stuck(marked, hash);
        }
        if !a.host(hash).regular {
            assert(a == marked);
            assert(after == marked.touch(hash));
            assert(after.full_pages() =~= marked.full_pages());
            assert forall|o: u64| !#[trigger] after.evictable(o) by {
                assert(!marked.evictable(o));
            }
        } else {
            assert(a.make_swa_room().host(hash).regular);
        }
    } else {
        assert(marked.make_swa_room().host(hash).regular);
        if is_stuck(marked) {
            assert forall|o: u64| after.host(o).regular == #[trigger] marked.host(o).regular by {
                assert(marked.make_swa_room().host(o).regular == marked.host(o).regular);
            }
            assert(after.full_pages() =~= marked.full_pages()) by {
                assert forall|o: u64| after.full_pages().contains(o) == marked.full_pages().contains(
                    o,
                ) by {
                    assert(after.host(o).regular == marked.host(o).regular);
                }
            }
            assert forall|o: u64| !#[trigger] after.evictable(o) by {
                assert(!marked.evictable(o));
                assert(after.host(o).regular == marked.host(o).regular);
            }
        }
    }
}

/// Where a regular group is not admitted, none can give way and nothing has
/// changed.
pub proof fn lemma_refusal_means_stuck(m: L2Model, hash: u64)
    requires
        m.inv(),
        !m.host(hash).regular,
        !m.admit_regular(hash).host(hash).regular,
    ensures
        is_stuck(m),
        m.admit_regular(hash) == m,
{
    assert(m.full_pages().len() >= m.full_capacity);
    if let Some(victim) = m.full_victim() {
        assert(m.is_full_victim(victim));
        m.lemma_with_page_residency(
            victim,
            ResidentPage { host: no_components(), ..m.pages[victim] },
        );
        assert(m.full_pages().contains(victim));
        assert(m.make_full_room().full_pages().len() < m.full_capacity);
    }
    assert forall|o: u64| !#[trigger] m.evictable(o) by {
        if m.evictable(o) {
            m.lemma_full_victim_exists(o);
        }
    }
}

/// Law: reports of the device never change what is on the host.
pub proof fn law_device_reports_keep_host(m: L2Model, hash: u64, components: ComponentMask, o: u64)
    ensures
        m.mark_device_stored(hash, components).host(o) == m.host(o),
        m.mark_device_trailing_removed(hash).host(o) == m.host(o),
        m.mark_device_removed(hash).host(o) == m.host(o),
        m.clear_device().host(o) == m.host(o),
        m.touch_device_boundary(hash).host(o) == m.host(o),
{
}

/// Law: copying to the host never changes what is known of the device.
pub proof fn law_host_changes_keep_device(m: L2Model, hash: u64, components: ComponentMask, o: u64)
    ensures
        m.insert(hash, components).device(o) == m.device(o),
        m.touch(hash).device(o) == m.device(o),
        m.remove_regular(hash).device(o) == m.device(o),
        m.remove_trailing(hash).device(o) == m.device(o),
{
    let a = if components.regular && !m.host(hash).regular {
        m.admit_regular(hash)
    } else {
        m
    };
    assert(m.make_full_room().device(o) == m.device(o));
    assert(a.device(o) == m.device(o));
    assert(a.make_swa_room().device(o) == a.device(o));
}

/// Law: the device holds what was reported stored until it is reported removed;
/// a removal undoes the reports before it.
pub proof fn law_device_reports(m: L2Model, hash: u64, components: ComponentMask, o: u64)
    ensures
        m.mark_device_stored(hash, components).device(o) == if o == hash {
            m.device(o).joined(components)
        } else {
            m.device(o)
        },
        m.mark_device_removed(hash).device(o) == if o == hash {
            no_components()
        } else {
            m.device(o)
        },
        m.mark_device_trailing_removed(hash).device(o) == if o == hash {
            (ComponentMask { trailing: false, ..m.device(o) })
        } else {
            m.device(o)
        },
        m.clear_device().device(o) == no_components(),
        m.mark_device_stored(hash, components).mark_device_removed(hash).device(o)
            == m.mark_device_removed(hash).device(o),
{
}

/// Law: a page that is on the device with its regular group never loses its
/// place on the host to another page.
pub proof fn law_device_pages_stay_on_host(m: L2Model, hash: u64, components: ComponentMask, o: u64)
    requires
        m.host(o).regular,
        m.device(o).regular,
    ensures
        m.insert(hash, components).host(o).regular,
{
    let a = if components.regular && !m.host(hash).regular {
        m.admit_regular(hash)
    } else {
        m
    };
    if let Some(victim) = m.full_victim() {
        assert(m.is_full_victim(victim));
        assert(m.evictable(victim));
    }
    assert(a.host(o).regular);
    assert(a.make_swa_room().host(o).regular);
}

/// Law: the page that gives way for a regular group is the least recently used
/// of those that are not on the device, and none gives way while there is room.
pub proof fn law_full_eviction_is_lru(m: L2Model, hash: u64, components: ComponentMask, o: u64)
    requires
        m.inv(),
        m.host(o).regular,
        !m.insert(hash, components).host(o).regular,
    ensures
        m.is_full_victim(o),
        m.full_pages().len() == m.full_capacity,
{
    let a = if components.regular && !m.host(hash).regular {
        m.admit_regular(hash)
    } else {
        m
    };
    assert(a.make_swa_room().host(o).regular == a.host(o).regular);
    let b = if components.trailing && a.host(hash).regular && !a.host(hash).trailing {
        a.admit_trailing(hash)
    } else {
        a
    };
    assert(b.host(o).regular == a.host(o).regular);
    assert(!a.host(o).regular);
    assert(!m.make_full_room().host(o).regular);
    let victim = m.full_victim().unwrap();
    assert(m.is_full_victim(victim));
}

/// Law: at most one page loses its regular group to an insertion.
pub proof fn law_one_full_eviction(m: L2Model, hash: u64, components: ComponentMask, a: u64, b: u64)
    requires
        m.inv(),
        m.host(a).regular && !m.insert(hash, components).host(a).regular,
        m.host(b).regular && !m.insert(hash, components).host(b).regular,
    ensures
        a == b,
{
    law_full_eviction_is_lru(m, hash, components, a);
    law_full_eviction_is_lru(m, hash, components, b);
    m.lemma_full_victim(a);
    m.lemma_full_victim(b);
}

/// Law: a trailing group gives way alone only for another one, only where no
/// more fit, and only the least recently used does.
pub proof fn law_trailing_eviction_is_lru(
    m: L2Model,
    hash: u64,
    components: ComponentMask,
    o: u64,
)
    requires
        m.inv(),
        m.host(o).trailing,
        !m.insert(hash, components).host(o).trailing,
        m.insert(hash, components).host(o).regular,
    ensures
        ({
            let admitted = if components.regular && !m.host(hash).regular {
                m.admit_regular(hash)
            } else {
                m
            };
            &&& components.trailing
            &&& o != hash
            &&& admitted.is_swa_victim(o)
            &&& admitted.swa_pages().len() >= admitted.swa_capacity
        }),
{
    let a = if components.regular && !m.host(hash).regular {
        m.admit_regular(hash)
    } else {
        m
    };
    let room = a.make_swa_room();
    if let Some(victim) = m.full_victim() {
        assert(m.is_full_victim(victim));
    }
    if let Some(victim) = a.swa_victim() {
        assert(a.is_swa_victim(victim));
    }
    assert(a.host(o).regular == m.insert(hash, components).host(o).regular) by {
        assert(room.host(o).regular == a.host(o).regular);
        assert(room.host(hash).regular == a.host(hash).regular);
    }
    assert(a.host(o).trailing);
}

/// Law: a whole page that is offered while both groups have room is on the host
/// afterwards, and nothing else changes there.
pub proof fn law_insert_with_room(m: L2Model, hash: u64, o: u64)
    requires
        m.inv(),
        m.full_pages().len() < m.full_capacity,
        m.swa_pages().len() < m.swa_capacity,
    ensures
        m.insert(hash, ComponentMask { regular: true, trailing: true }).host(o) == if o == hash {
            (ComponentMask { regular: true, trailing: true })
        } else {
            m.host(o)
        },
{
    let whole = ComponentMask { regular: true, trailing: true };
    let a = if !m.host(hash).regular {
        m.admit_regular(hash)
    } else {
        m
    };
    let page = a.page(hash);
    m.lemma_with_page_residency(hash, page);
    assert(a.swa_pages() =~= m.swa_pages()) by {
        if !m.host(hash).regular {
            assert(!m.host(hash).trailing);
            assert(!m.swa_pages().contains(hash));
            assert(a == m.with_page(hash, page));
        }
    }
    let b = if !a.host(hash).trailing {
        a.admit_trailing(hash)
    } else {
        a
    };
    assert(b.host(hash) == whole);
    assert(m.insert(hash, whole) == b.touch(hash));
}

/// Law: an offer of groups that the host has already adds no page and changes
/// nothing but the recency of the page.
pub proof fn law_resident_insert_adds_nothing(
    m: L2Model,
    hash: u64,
    components: ComponentMask,
)
    requires
        m.host(hash).covers(components),
    ensures
        !m.insert_adds_full(hash, components),
        m.insert(hash, components) == m.touch(hash),
{
}

/// Law: a page that was just used is the most recent one, as long as the clock
/// has not run out.
pub proof fn law_touch_makes_most_recent(m: L2Model, hash: u64, o: u64)
    requires
        m.inv(),
        m.clock < u64::MAX,
        o != hash,
    ensures
        m.host(hash).regular && m.host(o).regular ==> older(
            (m.touch(hash).page(o).host_full_access, o),
            (m.touch(hash).page(hash).host_full_access, hash),
        ),
        m.host(hash).trailing && m.host(o).trailing ==> older(
            (m.touch(hash).page(o).host_swa_access, o),
            (m.touch(hash).page(hash).host_swa_access, hash),
        ),
        m.device(hash).trailing && m.device(o).trailing ==> older(
            (m.touch_device_boundary(hash).page(o).device_swa_access, o),
            (m.touch_device_boundary(hash).page(hash).device_swa_access, hash),
        ),
{
}

} // verus!
