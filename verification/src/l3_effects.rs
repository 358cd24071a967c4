//! What the operations of the shared tier do, told by the stored pages.

use crate::facts::{
    capped, group_bytes, l3_regular, l3_serves, l3_trailing, next_stamp, used_before,
};
use crate::geometry::ComponentMask;
use crate::l3_laws::{
    dropped, law_evictions_are_counted, law_replacement_is_lru, law_replacement_is_minimal,
    lemma_make_room_keeps,
};
use crate::l3_model::{L3Model, L3Page};
use crate::prefix::{is_boundary, lemma_usable_prefix_bounds};
use crate::recency::lemma_oldest_exists;
use crate::shared_l3::SglangL3Report;
use vstd::prelude::*;

verus! {

/// Law: reading the tier gives what the stored pages say.
pub proof fn law_reads_show_the_pages(m: L3Model, hash: u64)
    ensures
        m.components(hash).regular == l3_regular(m, hash),
        m.components(hash).trailing == l3_trailing(m, hash),
{
}

/// Law: a new tier is empty and has counted nothing.
pub proof fn law_new_tier_is_empty(capacity_bytes: u64, hash: u64)
    ensures
        ({
            let m = L3Model::fresh(capacity_bytes);
            &&& m.capacity_bytes == capacity_bytes
            &&& m.used_bytes == 0 && m.peak_bytes == 0 && m.inserted_bytes == 0
            &&& m.evicted_bytes == 0 && m.rejected_bytes == 0 && m.page_evictions == 0
            &&& m.clock == 0
            &&& !m.pages.contains_key(hash)
        }),
{
}

/// Bytes of the page once the offered groups are stored beside those it has.
pub open spec fn wanted_bytes(m: L3Model, hash: u64, offered: ComponentMask) -> int {
    group_bytes(
        l3_regular(m, hash) || offered.regular,
        l3_trailing(m, hash) || offered.trailing,
    )
}

/// Bytes that the offered groups add.
pub open spec fn new_bytes(m: L3Model, hash: u64, offered: ComponentMask) -> int {
    wanted_bytes(m, hash, offered) - group_bytes(l3_regular(m, hash), l3_trailing(m, hash))
}

/// There is a least recently used page beside `keep`, if there is another page.
proof fn lemma_victim_exists(m: L3Model, keep: u64, other: u64)
    requires
        m.pages.dom().finite(),
        m.pages.contains_key(other),
        other != keep,
    ensures
        m.victim(keep) is Some,
        m.is_victim(keep, m.victim(keep)->0),
{
    let others = m.pages.dom().remove(keep);
    let stamped = |h: u64| (m.pages[h].last_access, h);
    let entries = others.map(stamped);
    others.lemma_map_finite(stamped);
    assert(others.contains(other));
    assert(entries.contains(stamped(other)));
    assert(entries.len() > 0) by {
        if entries.len() == 0 {
            entries.lemma_len0_is_empty();
        }
    }
    let e = lemma_oldest_exists(entries);
    let h = choose|h: u64| others.contains(h) && stamped(h) == e;
    assert forall|o: u64| #[trigger]
        m.pages.contains_key(o) && o != keep && o != h implies crate::recency::older(
        (m.pages[h].last_access, h),
        (m.pages[o].last_access, o),
    ) by {
        assert(others.contains(o));
        assert(entries.contains(stamped(o)));
    }
    assert(m.is_victim(keep, h));
    m.lemma_victim(keep, h);
}

/// Room can be made for whatever fits at all.
proof fn lemma_room_can_be_made(m: L3Model, hash: u64, offered: ComponentMask)
    requires
        m.inv(),
        m.accepts(hash, offered),
        m.missing_bytes(hash, offered) > 0,
    ensures
        m.make_room(hash, m.missing_bytes(hash, offered)).fits(m.missing_bytes(hash, offered)),
    decreases m.pages.dom().len(),
{
    let missing = m.missing_bytes(hash, offered);
    if !m.fits(missing) {
        if exists|o: u64| #[trigger] m.pages.contains_key(o) && o != hash {
            let o = choose|o: u64| #[trigger] m.pages.contains_key(o) && o != hash;
            lemma_victim_exists(m, hash, o);
            let victim = m.victim(hash)->0;
            m.lemma_evict_inv(victim);
            lemma_room_can_be_made(m.evict(victim), hash, offered);
        } else {
            m.lemma_lone_page_fits(hash, offered);
        }
    }
}

/// Law: an offer of nothing new changes nothing. An offer that makes the page
/// larger than the tier is refused and only counted. Any other offer is
/// accepted.
pub proof fn law_put_answers_by_size(m: L3Model, hash: u64, offered: ComponentMask)
    ensures
        new_bytes(m, hash, offered) == 0 ==> m.put(hash, offered) == m,
        m.accepts(hash, offered) <==> new_bytes(m, hash, offered) == 0 || wanted_bytes(
            m,
            hash,
            offered,
        ) <= m.capacity_bytes,
        new_bytes(m, hash, offered) > 0 && wanted_bytes(m, hash, offered) > m.capacity_bytes ==> {
            &&& m.put(hash, offered) == (L3Model {
                rejected_bytes: m.put(hash, offered).rejected_bytes,
                ..m
            })
            &&& m.put(hash, offered).rejected_bytes == capped(
                m.rejected_bytes + new_bytes(m, hash, offered),
            )
        },
{
}

/// Law: an offer is accepted exactly where the offered groups are stored
/// afterwards.
pub proof fn law_accepted_means_stored(m: L3Model, hash: u64, offered: ComponentMask)
    ensures
        m.accepts(hash, offered) <==> (offered.regular ==> l3_regular(m.put(hash, offered), hash))
            && (offered.trailing ==> l3_trailing(m.put(hash, offered), hash)),
{
}

/// Law: an accepted offer of something new is stored beside what the page had,
/// marked used now and counted, within capacity.
pub proof fn law_put_stores_and_counts(m: L3Model, hash: u64, offered: ComponentMask)
    requires
        m.inv(),
        new_bytes(m, hash, offered) > 0,
        wanted_bytes(m, hash, offered) <= m.capacity_bytes,
    ensures
        ({
            let after = m.put(hash, offered);
            &&& l3_regular(after, hash) == (l3_regular(m, hash) || offered.regular)
            &&& l3_trailing(after, hash) == (l3_trailing(m, hash) || offered.trailing)
            &&& after.pages[hash].last_access == after.clock
            &&& after.clock == next_stamp(m.clock)
            &&& after.capacity_bytes == m.capacity_bytes
            &&& after.rejected_bytes == m.rejected_bytes
            &&& after.inserted_bytes == capped(m.inserted_bytes + new_bytes(m, hash, offered))
            &&& after.used_bytes <= m.capacity_bytes
            &&& after.peak_bytes == if m.peak_bytes < after.used_bytes {
                after.used_bytes
            } else {
                m.peak_bytes
            }
        }),
{
    lemma_room_can_be_made(m, hash, offered);
    lemma_make_room_keeps(m, hash, m.missing_bytes(hash, offered));
    lemma_peak_stays(m, hash, m.missing_bytes(hash, offered));
}

proof fn lemma_peak_stays(m: L3Model, keep: u64, bytes: int)
    requires
        m.inv(),
    ensures
        m.make_room(keep, bytes).peak_bytes == m.peak_bytes,
        m.make_room(keep, bytes).rejected_bytes == m.rejected_bytes,
        m.make_room(keep, bytes).used_bytes <= m.used_bytes,
        m.make_room(keep, bytes).evicted_bytes < 0xFFFF_FFFF_FFFF_FFFF && !m.saturated()
            ==> m.make_room(keep, bytes).used_bytes + m.make_room(keep, bytes).evicted_bytes
            == m.used_bytes + m.evicted_bytes,
    decreases m.pages.dom().len(),
{
    if !m.fits(bytes) {
        if let Some(victim) = m.victim(keep) {
            assert(m.is_victim(keep, victim));
            m.lemma_evict_inv(victim);
            crate::l3_model::lemma_stored_bytes_remove(m.pages, victim);
            crate::l3_model::lemma_stored_bytes_nonneg(m.pages.remove(victim));
            lemma_peak_stays(m.evict(victim), keep, bytes);
        }
    }
}

/// Law: what is used grows by the new bytes and shrinks by the evicted ones, as
/// long as no counter is full.
pub proof fn law_put_balances_bytes(m: L3Model, hash: u64, offered: ComponentMask)
    requires
        m.inv(),
        m.capacity_bytes < 0xFFFF_FFFF_FFFF_FFFF,
        m.put(hash, offered).evicted_bytes < 0xFFFF_FFFF_FFFF_FFFF,
        new_bytes(m, hash, offered) == 0 || wanted_bytes(m, hash, offered) <= m.capacity_bytes,
    ensures
        m.put(hash, offered).used_bytes + m.put(hash, offered).evicted_bytes == m.used_bytes
            + m.evicted_bytes + new_bytes(m, hash, offered),
{
    if new_bytes(m, hash, offered) > 0 {
        lemma_room_can_be_made(m, hash, offered);
        lemma_make_room_keeps(m, hash, m.missing_bytes(hash, offered));
        lemma_peak_stays(m, hash, m.missing_bytes(hash, offered));
    }
}

/// Law: another page keeps everything or is dropped whole. Nothing is dropped
/// where the new bytes fit; what is dropped was used before all that stays; and
/// the last one to go was needed.
pub proof fn law_put_drops_oldest_pages(
    m: L3Model,
    hash: u64,
    offered: ComponentMask,
    gone: u64,
    stays: u64,
)
    requires
        m.inv(),
        gone != hash,
        stays != hash,
    ensures
        ({
            let after = m.put(hash, offered);
            &&& after.pages.contains_key(stays) ==> m.pages.contains_key(stays)
                && after.pages[stays] == m.pages[stays]
            &&& m.pages.contains_key(gone) && !after.pages.contains_key(gone) ==> {
                &&& m.used_bytes + new_bytes(m, hash, offered) > m.capacity_bytes
                &&& after.pages.contains_key(stays) ==> used_before(
                    m.pages[gone].last_access,
                    gone,
                    m.pages[stays].last_access,
                    stays,
                )
            }
        }),
{
    let missing = m.missing_bytes(hash, offered);
    let after = m.put(hash, offered);
    lemma_make_room_keeps(m, hash, missing);
    if m.pages.contains_key(gone) && !after.pages.contains_key(gone) {
        assert(dropped(m, hash, missing, gone));
        assert(!m.fits(missing));
        if after.pages.contains_key(stays) {
            law_replacement_is_lru(m, hash, missing, gone, stays);
        }
    }
}

/// Law: a put drops no more than it must: with the last page that it dropped
/// still there, the new bytes would not fit. Returns that page.
pub proof fn law_put_drops_no_more_than_it_must(
    m: L3Model,
    hash: u64,
    offered: ComponentMask,
    gone: u64,
) -> (last: u64)
    requires
        m.inv(),
        m.capacity_bytes < 0xFFFF_FFFF_FFFF_FFFF,
        gone != hash,
        m.pages.contains_key(gone),
        !m.put(hash, offered).pages.contains_key(gone),
    ensures
        last != hash,
        m.pages.contains_key(last),
        !m.put(hash, offered).pages.contains_key(last),
        m.put(hash, offered).used_bytes + group_bytes(
            m.pages[last].components.regular,
            m.pages[last].components.trailing,
        ) > m.capacity_bytes,
{
    let missing = m.missing_bytes(hash, offered);
    assert(dropped(m, hash, missing, gone));
    lemma_room_can_be_made(m, hash, offered);
    lemma_make_room_keeps(m, hash, missing);
    law_replacement_is_minimal(m, hash, missing, gone)
}

/// Law: each dropped page is counted once.
pub proof fn law_put_counts_evictions(m: L3Model, hash: u64, offered: ComponentMask)
    requires
        m.inv(),
    ensures
        m.put(hash, offered).page_evictions == capped(
            m.page_evictions + m.pages.dom().difference(
                m.put(hash, offered).pages.dom(),
            ).len(),
        ),
{
    law_evictions_are_counted(m, hash, offered);
}

/// Law: an eviction drops the page with all its groups and counts it; other
/// pages and an unknown page change nothing.
pub proof fn law_evict_effect(m: L3Model, hash: u64, o: u64)
    requires
        m.inv(),
    ensures
        ({
            let after = m.evict(hash);
            &&& !m.pages.contains_key(hash) ==> after == m
            &&& !after.pages.contains_key(hash)
            &&& o != hash ==> (after.pages.contains_key(o) <==> m.pages.contains_key(o)) && (
            m.pages.contains_key(o) ==> after.pages[o] == m.pages[o])
            &&& m.pages.contains_key(hash) ==> {
                let bytes = group_bytes(l3_regular(m, hash), l3_trailing(m, hash));
                &&& after.page_evictions == capped(m.page_evictions + 1)
                &&& after.evicted_bytes == capped(m.evicted_bytes + bytes)
                &&& m.capacity_bytes < 0xFFFF_FFFF_FFFF_FFFF ==> after.used_bytes
                    == m.used_bytes - bytes
            }
            &&& after.capacity_bytes == m.capacity_bytes && after.peak_bytes == m.peak_bytes
            &&& after.inserted_bytes == m.inserted_bytes
            &&& after.rejected_bytes == m.rejected_bytes
            &&& after.clock == m.clock
        }),
{
    if m.pages.contains_key(hash) {
        crate::l3_model::lemma_stored_bytes_remove(m.pages, hash);
        crate::l3_model::lemma_stored_bytes_nonneg(m.pages.remove(hash));
    }
}

/// Law: touching one page more marks it used after all before it, if it is
/// stored, and changes nothing else.
pub proof fn law_touch_all_effect(m: L3Model, hashes: Seq<u64>, hash: u64, o: u64)
    ensures
        m.touch_all(Seq::empty()) == m,
        ({
            let before = m.touch_all(hashes);
            let after = m.touch_all(hashes.push(hash));
            &&& !before.pages.contains_key(hash) ==> after == before
            &&& before.pages.contains_key(hash) ==> {
                &&& after.clock == next_stamp(before.clock)
                &&& after.pages.contains_key(hash)
                &&& after.pages[hash] == (L3Page {
                    last_access: after.clock,
                    ..before.pages[hash]
                })
            }
            &&& after == (L3Model { clock: after.clock, pages: after.pages, ..before })
            &&& o != hash ==> (after.pages.contains_key(o) <==> before.pages.contains_key(o)) && (
            before.pages.contains_key(o) ==> after.pages[o] == before.pages[o])
        }),
{
    assert(hashes.push(hash).drop_last() =~= hashes);
}

/// Law: the prefix that the tier serves is the farthest end that it can serve.
pub proof fn law_prefix_is_farthest(m: L3Model, sequence: Seq<u64>, k: int)
    ensures
        m.prefix(sequence) >= 0,
        m.prefix(sequence) > 0 ==> l3_serves(m, sequence, m.prefix(sequence)),
        l3_serves(m, sequence, k) ==> k <= m.prefix(sequence),
{
    let masks = m.masks(sequence);
    lemma_usable_prefix_bounds(masks, 0);
    let end = m.prefix(sequence);
    if end > 0 {
        assert(is_boundary(masks, 0, end));
        assert forall|i: int| 0 <= i < end implies l3_regular(m, #[trigger] sequence[i]) by {
            assert(masks[i].regular);
        }
        assert(masks[end - 1].trailing);
    }
    if l3_serves(m, sequence, k) {
        assert forall|i: int| 0 <= i < k implies (#[trigger] masks[i]).regular by {
            assert(l3_regular(m, sequence[i]));
        }
        assert(is_boundary(masks, 0, k));
    }
}

/// Law: a report counts the stored pages and groups, and its byte counts agree
/// with them: every stored group is used, every inserted byte is used or was
/// evicted.
pub proof fn law_report_adds_up(m: L3Model, report: SglangL3Report)
    requires
        m.inv(),
        report.shows(m),
    ensures
        report.final_pages == m.pages.dom().len(),
        report.final_regular_pages == m.pages.dom().filter(
            |h: u64| m.pages[h].components.regular,
        ).len(),
        report.final_trailing_pages == m.pages.dom().filter(
            |h: u64| m.pages[h].components.trailing,
        ).len(),
        report.capacity_bytes == m.capacity_bytes,
        report.rejected_bytes == m.rejected_bytes,
        report.page_evictions == m.page_evictions,
        report.used_bytes == m.used_bytes,
        report.inserted_bytes == m.inserted_bytes,
        report.evicted_bytes == m.evicted_bytes,
        report.peak_bytes == m.peak_bytes,
        report.used_bytes <= report.peak_bytes <= report.capacity_bytes,
        report.capacity_bytes < 0xFFFF_FFFF_FFFF_FFFF ==> report.used_bytes == 998_208
            * report.final_regular_pages + 8_160_000 * report.final_trailing_pages,
        report.inserted_bytes < 0xFFFF_FFFF_FFFF_FFFF ==> report.inserted_bytes
            == report.used_bytes + report.evicted_bytes,
{
}

} // verus!
