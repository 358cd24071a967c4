//! Laws of the shared lower tier.

use crate::geometry::ComponentMask;
use crate::l3_model::{
    lemma_stored_bytes_insert, lemma_stored_bytes_remove, sat_add, stored_bytes, L3Model,
};
use crate::recency::older;
use vstd::prelude::*;

verus! {

/// `o` is a page that making room for `bytes` beside `keep` drops.
pub open spec fn dropped(m: L3Model, keep: u64, bytes: int, o: u64) -> bool {
    m.pages.contains_key(o) && !m.make_room(keep, bytes).pages.contains_key(o)
}

/// Making room drops whole pages other than `keep`, and what is left is as it
/// was.
pub proof fn lemma_make_room_keeps(m: L3Model, keep: u64, bytes: int)
    requires
        m.inv(),
    ensures
        m.make_room(keep, bytes).inv(),
        m.make_room(keep, bytes).pages.submap_of(m.pages),
        m.pages.contains_key(keep) ==> m.make_room(keep, bytes).pages.contains_key(keep),
        m.make_room(keep, bytes).clock == m.clock,
        m.make_room(keep, bytes).capacity_bytes == m.capacity_bytes,
        m.make_room(keep, bytes).inserted_bytes == m.inserted_bytes,
    decreases m.pages.dom().len(),
{
    if !m.fits(bytes) {
        if let Some(victim) = m.victim(keep) {
            assert(m.is_victim(keep, victim));
            m.lemma_evict_inv(victim);
            lemma_make_room_keeps(m.evict(victim), keep, bytes);
        }
    }
}

/// The first page to be dropped, and what is dropped after it.
proof fn lemma_dropped_step(m: L3Model, keep: u64, bytes: int, o: u64)
    requires
        m.inv(),
        dropped(m, keep, bytes, o),
    ensures
        !m.fits(bytes),
        m.victim(keep) is Some,
        m.is_victim(keep, m.victim(keep).unwrap()),
        m.evict(m.victim(keep).unwrap()).inv(),
        m.make_room(keep, bytes) == m.evict(m.victim(keep).unwrap()).make_room(keep, bytes),
        o == m.victim(keep).unwrap() || dropped(m.evict(m.victim(keep).unwrap()), keep, bytes, o),
{
    let victim = m.victim(keep).unwrap();
    assert(m.is_victim(keep, victim));
    m.lemma_evict_inv(victim);
}

/// Law: every page that is dropped for room was used less recently than every
/// page that stays, other than the page that the room is for.
pub proof fn law_replacement_is_lru(m: L3Model, keep: u64, bytes: int, gone: u64, stays: u64)
    requires
        m.inv(),
        dropped(m, keep, bytes, gone),
        m.make_room(keep, bytes).pages.contains_key(stays),
        stays != keep,
    ensures
        older((m.pages[gone].last_access, gone), (m.pages[stays].last_access, stays)),
    decreases m.pages.dom().len(),
{
    lemma_dropped_step(m, keep, bytes, gone);
    let victim = m.victim(keep).unwrap();
    let next = m.evict(victim);
    lemma_make_room_keeps(next, keep, bytes);
    assert(next.pages.contains_key(stays));
    assert(m.pages.contains_key(stays));
    if gone != victim {
        law_replacement_is_lru(next, keep, bytes, gone, stays);
    }
}

/// Law: no more pages are dropped than needed: with the last of them still
/// there, the new bytes would not fit. Returns that page.
pub proof fn law_replacement_is_minimal(m: L3Model, keep: u64, bytes: int, o: u64) -> (last: u64)
    requires
        m.inv(),
        !m.saturated(),
        bytes >= 0,
        dropped(m, keep, bytes, o),
    ensures
        dropped(m, keep, bytes, last),
        m.make_room(keep, bytes).used_bytes + m.pages[last].components.byte_size() + bytes
            > m.capacity_bytes,
    decreases m.pages.dom().len(),
{
    lemma_dropped_step(m, keep, bytes, o);
    let victim = m.victim(keep).unwrap();
    let next = m.evict(victim);
    lemma_stored_bytes_remove(m.pages, victim);
    lemma_make_room_keeps(next, keep, bytes);
    if exists|p: u64| dropped(next, keep, bytes, p) {
        let p = choose|p: u64| dropped(next, keep, bytes, p);
        let last = law_replacement_is_minimal(next, keep, bytes, p);
        assert(next.pages[last] == m.pages[last]);
        last
    } else {
        let room = next.make_room(keep, bytes);
        assert forall|p: u64| #[trigger]
            next.pages.contains_key(p) implies room.pages.contains_key(p) by {
            if !room.pages.contains_key(p) {
                assert(dropped(next, keep, bytes, p));
            }
        }
        assert(room.pages =~= next.pages);
        victim
    }
}

/// Law: an offer that the tier accepts ends with the offered groups stored
/// beside those it had.
pub proof fn law_accepted_put_is_stored(m: L3Model, hash: u64, offered: ComponentMask)
    requires
        m.inv(),
        m.accepts(hash, offered),
    ensures
        m.put(hash, offered).components(hash) == m.components(hash).joined(offered),
{
}

/// Law: an offer of groups that are all stored changes nothing, not even the
/// recency of the page.
pub proof fn law_repeated_put_changes_nothing(m: L3Model, hash: u64, offered: ComponentMask)
    requires
        m.components(hash).covers(offered),
    ensures
        m.put(hash, offered) == m,
        m.accepts(hash, offered),
{
}

/// Law: an offer that cannot fit is counted and changes nothing else.
pub proof fn law_rejected_put_is_only_counted(m: L3Model, hash: u64, offered: ComponentMask)
    requires
        !m.accepts(hash, offered),
    ensures
        m.put(hash, offered) == (L3Model {
            rejected_bytes: sat_add(m.rejected_bytes, m.missing_bytes(hash, offered)),
            ..m
        }),
{
}

/// Law: replacement is coherent: another page keeps all its groups or loses all
/// of them, and it keeps them where the new bytes fit beside it.
pub proof fn law_replacement_is_group_coherent(
    m: L3Model,
    hash: u64,
    offered: ComponentMask,
    o: u64,
)
    requires
        m.inv(),
        o != hash,
    ensures
        m.put(hash, offered).pages.contains_key(o) ==> m.pages.contains_key(o) && m.put(
            hash,
            offered,
        ).pages[o] == m.pages[o],
        m.fits(m.missing_bytes(hash, offered)) && m.pages.contains_key(o) ==> m.put(
            hash,
            offered,
        ).pages.contains_key(o),
{
    lemma_make_room_keeps(m, hash, m.missing_bytes(hash, offered));
}

/// Law: a page that was just stored is the most recent one, as long as the
/// clock has not run out.
pub proof fn law_stored_page_is_most_recent(
    m: L3Model,
    hash: u64,
    offered: ComponentMask,
    o: u64,
)
    requires
        m.inv(),
        m.clock < u64::MAX,
        m.missing_bytes(hash, offered) > 0,
        m.accepts(hash, offered),
        o != hash,
        m.put(hash, offered).pages.contains_key(o),
    ensures
        older(
            (m.put(hash, offered).pages[o].last_access, o),
            (m.put(hash, offered).pages[hash].last_access, hash),
        ),
{
    lemma_make_room_keeps(m, hash, m.missing_bytes(hash, offered));
}

/// Law: use within capacity; and, unless a counter has saturated, used bytes
/// are those of the stored groups, and everything inserted is still there or
/// was evicted.
pub proof fn law_bytes_are_accounted_for(m: L3Model)
    requires
        m.inv(),
    ensures
        m.used_bytes <= m.peak_bytes <= m.capacity_bytes,
        m.capacity_bytes < u64::MAX ==> stored_bytes(m.pages) == m.used_bytes,
        m.inserted_bytes < u64::MAX ==> m.inserted_bytes == stored_bytes(m.pages)
            + m.evicted_bytes,
{
}

/// Making room counts what it drops.
proof fn lemma_make_room_counts(m: L3Model, keep: u64, bytes: int)
    requires
        m.inv(),
    ensures
        ({
            let room = m.make_room(keep, bytes);
            let gone = m.pages.dom().difference(room.pages.dom());
            &&& room.page_evictions == sat_add(m.page_evictions, gone.len() as int)
            &&& room.evicted_bytes == sat_add(
                m.evicted_bytes,
                stored_bytes(m.pages) - stored_bytes(room.pages),
            )
            &&& stored_bytes(room.pages) <= stored_bytes(m.pages)
            &&& room.rejected_bytes == m.rejected_bytes
            &&& room.peak_bytes == m.peak_bytes
        }),
    decreases m.pages.dom().len(),
{
    let room = m.make_room(keep, bytes);
    let gone = m.pages.dom().difference(room.pages.dom());
    if m.fits(bytes) || m.victim(keep) is None {
        assert(gone =~= Set::<u64>::empty());
    } else {
        let victim = m.victim(keep)->0;
        assert(m.is_victim(keep, victim));
        m.lemma_evict_inv(victim);
        let next = m.evict(victim);
        lemma_make_room_counts(next, keep, bytes);
        lemma_make_room_keeps(next, keep, bytes);
        lemma_stored_bytes_remove(m.pages, victim);
        let later = next.pages.dom().difference(room.pages.dom());
        assert(gone =~= later.insert(victim));
        assert(!later.contains(victim));
    }
}

/// Law: every page that a put drops is counted once, with all its bytes.
pub proof fn law_evictions_are_counted(m: L3Model, hash: u64, offered: ComponentMask)
    requires
        m.inv(),
    ensures
        ({
            let after = m.put(hash, offered);
            let gone = m.pages.dom().difference(after.pages.dom());
            let added = if m.accepts(hash, offered) {
                m.missing_bytes(hash, offered)
            } else {
                0
            };
            &&& after.page_evictions == sat_add(m.page_evictions, gone.len() as int)
            &&& after.evicted_bytes == sat_add(
                m.evicted_bytes,
                stored_bytes(m.pages) + added - stored_bytes(after.pages),
            )
        }),
{
    let missing = m.missing_bytes(hash, offered);
    let after = m.put(hash, offered);
    let gone = m.pages.dom().difference(after.pages.dom());
    if missing == 0 || !m.accepts(hash, offered) {
        assert(gone =~= Set::<u64>::empty());
    } else {
        let room = m.make_room(hash, missing);
        lemma_make_room_keeps(m, hash, missing);
        lemma_make_room_counts(m, hash, missing);
        lemma_stored_bytes_insert(room.pages, hash, after.pages[hash]);
        assert(gone =~= m.pages.dom().difference(room.pages.dom()));
    }
}

/// Law: marking pages used changes neither which pages are stored nor their
/// groups, nor any byte counter.
pub proof fn law_touch_keeps_contents(m: L3Model, hashes: Seq<u64>, o: u64)
    ensures
        m.touch_all(hashes).components(o) == m.components(o),
        m.touch_all(hashes).pages.contains_key(o) == m.pages.contains_key(o),
        m.touch_all(hashes).capacity_bytes == m.capacity_bytes,
        m.touch_all(hashes).used_bytes == m.used_bytes,
        m.touch_all(hashes).peak_bytes == m.peak_bytes,
        m.touch_all(hashes).inserted_bytes == m.inserted_bytes,
        m.touch_all(hashes).evicted_bytes == m.evicted_bytes,
        m.touch_all(hashes).rejected_bytes == m.rejected_bytes,
        m.touch_all(hashes).page_evictions == m.page_evictions,
    decreases hashes.len(),
{
    if hashes.len() > 0 {
        law_touch_keeps_contents(m, hashes.drop_last(), o);
    }
}

} // verus!
