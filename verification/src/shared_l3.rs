//! The shared lower tier: one byte-bounded store of whole logical pages.

use crate::geometry::ComponentMask;
use crate::l3_model::{
    lemma_stored_bytes_insert, regular_pages, stored_bytes, trailing_pages, L3Model, L3Page,
};
use crate::prefix::{is_usable_prefix, lemma_scan_step, lemma_usable_prefix};
use crate::protocols::{hash_values, ExternalSequenceBlockHash};
use crate::recency::{older, RecencyIndex};
use std::collections::HashMap;
use vstd::prelude::*;
use vstd::std_specs::hash::spec_keys_iter;
use vstd::std_specs::iter::IteratorSpec;

verus! {

/// Counters of the shared tier.
#[derive(Clone, Copy, Debug, PartialEq, Eq, Structural)]
pub struct SglangL3Report {
    pub capacity_bytes: u64,
    pub used_bytes: u64,
    pub peak_bytes: u64,
    pub inserted_bytes: u64,
    pub evicted_bytes: u64,
    pub rejected_bytes: u64,
    pub page_evictions: u64,
    pub final_pages: u64,
    pub final_regular_pages: u64,
    pub final_trailing_pages: u64,
}

impl Default for SglangL3Report {
    fn default() -> (report: Self)
        ensures
            report == (SglangL3Report {
                capacity_bytes: 0,
                used_bytes: 0,
                peak_bytes: 0,
                inserted_bytes: 0,
                evicted_bytes: 0,
                rejected_bytes: 0,
                page_evictions: 0,
                final_pages: 0,
                final_regular_pages: 0,
                final_trailing_pages: 0,
            }),
    {
        SglangL3Report {
            capacity_bytes: 0,
            used_bytes: 0,
            peak_bytes: 0,
            inserted_bytes: 0,
            evicted_bytes: 0,
            rejected_bytes: 0,
            page_evictions: 0,
            final_pages: 0,
            final_regular_pages: 0,
            final_trailing_pages: 0,
        }
    }
}

impl SglangL3Report {
    /// The report shows the counters of `l3` and how many pages it stores.
    pub open spec fn shows(self, l3: L3Model) -> bool {
        &&& self.capacity_bytes == l3.capacity_bytes
        &&& self.used_bytes == l3.used_bytes
        &&& self.peak_bytes == l3.peak_bytes
        &&& self.inserted_bytes == l3.inserted_bytes
        &&& self.evicted_bytes == l3.evicted_bytes
        &&& self.rejected_bytes == l3.rejected_bytes
        &&& self.page_evictions == l3.page_evictions
        &&& self.final_pages == l3.pages.dom().len()
        &&& self.final_regular_pages == regular_pages(l3.pages).len()
        &&& self.final_trailing_pages == trailing_pages(l3.pages).len()
    }
}

#[derive(Debug)]
pub struct SharedL3 {
    capacity_bytes: u64,
    used_bytes: u64,
    peak_bytes: u64,
    inserted_bytes: u64,
    evicted_bytes: u64,
    rejected_bytes: u64,
    page_evictions: u64,
    clock: u64,
    pages: HashMap<u64, L3Page>,
    lru: RecencyIndex,
}

impl View for SharedL3 {
    type V = L3Model;

    closed spec fn view(&self) -> L3Model {
        L3Model {
            capacity_bytes: self.capacity_bytes,
            used_bytes: self.used_bytes,
            peak_bytes: self.peak_bytes,
            inserted_bytes: self.inserted_bytes,
            evicted_bytes: self.evicted_bytes,
            rejected_bytes: self.rejected_bytes,
            page_evictions: self.page_evictions,
            clock: self.clock,
            pages: self.pages@,
        }
    }
}

impl SharedL3 {
    /// The model's invariant holds, and the recency index lists just what the
    /// pages say.
    pub closed spec fn wf(&self) -> bool {
        &&& self@.inv()
        &&& self.lru@ == self@.entries()
    }

    pub proof fn lemma_wf_inv(&self)
        requires
            self.wf(),
        ensures
            self@.inv(),
    {
    }

    pub fn new(capacity_bytes: u64) -> (l3: Self)
        ensures
            l3.wf(),
            l3@ == L3Model::fresh(capacity_bytes),
    {
        let l3 = SharedL3 {
            capacity_bytes,
            used_bytes: 0,
            peak_bytes: 0,
            inserted_bytes: 0,
            evicted_bytes: 0,
            rejected_bytes: 0,
            page_evictions: 0,
            clock: 0,
            pages: HashMap::new(),
            lru: RecencyIndex::new(),
        };
        proof {
            assert(l3@.entries() =~= Set::<(u64, u64)>::empty());
            assert(regular_pages(l3@.pages) =~= Set::<u64>::empty());
            assert(trailing_pages(l3@.pages) =~= Set::<u64>::empty());
            assert(stored_bytes(l3@.pages) == 0) by (nonlinear_arith)
                requires
                    regular_pages(l3@.pages).len() == 0,
                    trailing_pages(l3@.pages).len() == 0,
            ;
        }
        l3
    }

    /// Whether anything of a page is stored.
    pub fn contains_page(&self, hash: ExternalSequenceBlockHash) -> (contains: bool)
        ensures
            contains == self@.pages.contains_key(hash.0),
    {
        self.pages.contains_key(&hash.0)
    }

    /// The groups of a page that are stored.
    pub fn components(&self, hash: ExternalSequenceBlockHash) -> (components: ComponentMask)
        ensures
            components == self@.components(hash.0),
    {
        match self.pages.get(&hash.0) {
            Some(page) => page.components,
            None => ComponentMask::default(),
        }
    }

    pub fn has_regular(&self, hash: ExternalSequenceBlockHash) -> (has: bool)
        ensures
            has == self@.components(hash.0).regular,
    {
        self.components(hash).regular
    }

    pub fn has_trailing(&self, hash: ExternalSequenceBlockHash) -> (has: bool)
        ensures
            has == self@.components(hash.0).trailing,
    {
        self.components(hash).trailing
    }

    /// Drops a page with all its groups.
    pub fn evict(&mut self, hash: ExternalSequenceBlockHash)
        requires
            old(self).wf(),
        ensures
            final(self).wf(),
            final(self)@ == old(self)@.evict(hash.0),
    {
        let page = match self.pages.remove(&hash.0) {
            Some(page) => page,
            None => {
                assert(self@ =~= old(self)@);
                return;
            },
        };
        self.lru.remove(page.last_access, hash.0);
        let bytes: u64 = page.components.bytes();
        self.used_bytes = self.used_bytes.saturating_sub(bytes);
        self.evicted_bytes = self.evicted_bytes.saturating_add(bytes);
        self.page_evictions = self.page_evictions.saturating_add(1);
        proof {
            old(self)@.lemma_evict_inv(hash.0);
            assert(self@ =~= old(self)@.evict(hash.0));
            assert(self.lru@ =~= self@.entries());
        }
    }

    /// The least recently used page other than `keep`.
    fn victim(&self, keep: ExternalSequenceBlockHash) -> (victim: Option<ExternalSequenceBlockHash>)
        requires
            self.wf(),
        ensures
            match victim {
                Some(hash) => self@.is_victim(keep.0, hash.0),
                None => forall|h: u64| #[trigger] self@.pages.contains_key(h) ==> h == keep.0,
            },
    {
        let ghost m = self@;
        let found = self.lru.first_other_than(keep.0);
        match found {
            Some(e) => {
                proof {
                    let others = self.lru@.filter(|o: (u64, u64)| o.1 != keep.0);
                    assert(others.contains(e));
                    assert forall|o: u64| #[trigger]
                        m.pages.contains_key(o) && o != keep.0 && o != e.1 implies older(
                        (m.pages[e.1].last_access, e.1),
                        (m.pages[o].last_access, o),
                    ) by {
                        assert(m.entries().contains((m.pages[o].last_access, o)));
                        assert(others.contains((m.pages[o].last_access, o)));
                    }
                }
                Some(ExternalSequenceBlockHash(e.1))
            },
            None => {
                assert forall|h: u64| #[trigger] m.pages.contains_key(h) implies h == keep.0 by {
                    assert(m.entries().contains((m.pages[h].last_access, h)));
                }
                None
            },
        }
    }

    /// Stores the offered groups of a page; returns whether all are stored now.
    pub fn put(&mut self, hash: ExternalSequenceBlockHash, offered: ComponentMask) -> (stored: bool)
        requires
            old(self).wf(),
        ensures
            final(self).wf(),
            final(self)@ == old(self)@.put(hash.0, offered),
            stored == old(self)@.accepts(hash.0, offered),
    {
        let resident = self.components(hash);
        let desired = resident.union(offered);
        let missing_bytes: u64 = desired.bytes().saturating_sub(resident.bytes());
        if missing_bytes == 0 {
            return true;
        }
        if desired.bytes() > self.capacity_bytes {
            self.rejected_bytes = self.rejected_bytes.saturating_add(missing_bytes);
            assert(self@ =~= old(self)@.put(hash.0, offered));
            assert(self.lru@ =~= self@.entries());
            return false;
        }
        let ghost start = self@;
        let ghost missing = start.missing_bytes(hash.0, offered);
        while self.used_bytes.saturating_add(missing_bytes) > self.capacity_bytes
            invariant
                self.wf(),
                missing_bytes == missing,
                missing > 0,
                start.components(hash.0) == resident,
                self@.components(hash.0) == resident,
                self@.pages.contains_key(hash.0) == start.pages.contains_key(hash.0),
                self@.missing_bytes(hash.0, offered) == missing,
                self@.accepts(hash.0, offered),
                self@.make_room(hash.0, missing) == start.make_room(hash.0, missing),
            decreases self@.pages.dom().len(),
        {
            match self.victim(hash) {
                Some(victim) => {
                    proof {
                        self@.lemma_victim(hash.0, victim.0);
                    }
                    self.evict(victim);
                },
                None => {
                    proof {
                        self@.lemma_lone_page_fits(hash.0, offered);
                    }
                    assert(false);
                    return false;
                },
            }
        }
        let ghost room = self@;
        assert(room == start.make_room(hash.0, missing));
        self.clock = self.clock.saturating_add(1);
        match self.pages.get(&hash.0) {
            Some(page) => {
                self.lru.remove(page.last_access, hash.0);
            },
            None => {},
        }
        let page = L3Page { components: desired, last_access: self.clock };
        self.pages.insert(hash.0, page);
        self.lru.insert(self.clock, hash.0);
        self.used_bytes = self.used_bytes.saturating_add(missing_bytes);
        self.inserted_bytes = self.inserted_bytes.saturating_add(missing_bytes);
        if self.peak_bytes < self.used_bytes {
            self.peak_bytes = self.used_bytes;
        }
        proof {
            lemma_stored_bytes_insert(room.pages, hash.0, page);
            assert(self@ =~= start.put(hash.0, offered));
            assert(self.lru@ =~= self@.entries());
        }
        true
    }

    /// How many pages from the start of a sequence this tier can serve.
    pub fn prefix_blocks(&self, sequence: &[ExternalSequenceBlockHash]) -> (blocks: usize)
        ensures
            blocks == self@.prefix(hash_values(sequence@)),
            blocks <= sequence.len(),
    {
        let ghost masks = self@.masks(hash_values(sequence@));
        let mut best: usize = 0;
        let mut index: usize = 0;
        while index < sequence.len()
            invariant
                masks == self@.masks(hash_values(sequence@)),
                best <= index <= sequence.len(),
                is_usable_prefix(masks.take(index as int), 0, best as int),
                forall|i: int| 0 <= i < index ==> (#[trigger] masks[i]).regular,
            decreases sequence.len() - index,
        {
            let hash = sequence[index];
            proof {
                assert(masks[index as int] == self@.components(hash.0));
                lemma_scan_step(masks, 0, index as int, best as int);
            }
            if !self.has_regular(hash) {
                proof {
                    lemma_usable_prefix(masks, 0, best as int);
                }
                return best;
            }
            if self.has_trailing(hash) {
                best = index + 1;
            }
            index = index + 1;
        }
        proof {
            assert(masks.take(index as int) =~= masks);
            lemma_usable_prefix(masks, 0, best as int);
        }
        best
    }

    /// Stamps a stored page as used now.
    fn touch(&mut self, hash: ExternalSequenceBlockHash)
        requires
            old(self).wf(),
        ensures
            final(self).wf(),
            final(self)@ == old(self)@.touch(hash.0),
    {
        let mut page = match self.pages.get(&hash.0) {
            Some(page) => *page,
            None => {
                return;
            },
        };
        self.lru.remove(page.last_access, hash.0);
        self.clock = self.clock.saturating_add(1);
        page.last_access = self.clock;
        self.lru.insert(page.last_access, hash.0);
        self.pages.insert(hash.0, page);
        proof {
            lemma_stored_bytes_insert(old(self)@.pages, hash.0, page);
            assert(self@ =~= old(self)@.touch(hash.0));
            assert(self.lru@ =~= self@.entries());
        }
    }

    /// Stamps the stored ones among the first `blocks` pages of a sequence as
    /// used now.
    pub fn touch_prefix(&mut self, sequence: &[ExternalSequenceBlockHash], blocks: usize)
        requires
            old(self).wf(),
        ensures
            final(self).wf(),
            final(self)@ == old(self)@.touch_all(
                hash_values(sequence@).take(
                    if blocks < sequence.len() { blocks as int } else { sequence.len() as int },
                ),
            ),
    {
        let end: usize = if blocks < sequence.len() { blocks } else { sequence.len() };
        let ghost hashes = hash_values(sequence@);
        assert(hashes.take(0) =~= Seq::<u64>::empty());
        let mut index: usize = 0;
        while index < end
            invariant
                index <= end <= sequence.len(),
                hashes == hash_values(sequence@),
                self.wf(),
                self@ == old(self)@.touch_all(hashes.take(index as int)),
            decreases end - index,
        {
            self.touch(sequence[index]);
            proof {
                let longer = hashes.take(index + 1);
                assert(longer.drop_last() =~= hashes.take(index as int));
                assert(longer.last() == sequence@[index as int].0);
            }
            index = index + 1;
        }
    }

    /// The counters, and how many pages are stored.
    pub fn report(&self) -> (report: SglangL3Report)
        requires
            self.wf(),
        ensures
            report.shows(self@),
    {
        let ghost keys = spec_keys_iter(&self.pages).remaining().unref();
        let ghost all = self.pages@;
        let ghost regular_keys = regular_pages(all);
        let ghost trailing_keys = trailing_pages(all);
        let mut regular: usize = 0;
        let mut trailing: usize = 0;
        assert(keys.take(0).to_set().intersect(regular_keys) =~= Set::<u64>::empty());
        assert(keys.take(0).to_set().intersect(trailing_keys) =~= Set::<u64>::empty());
        for hash in it: self.pages.keys()
            invariant
                it.seq().unref() == keys,
                keys.no_duplicates(),
                keys.len() == self.pages@.dom().len(),
                self.pages@.dom().len() == self.pages.len(),
                keys.to_set() == all.dom(),
                self.pages@ == all,
                regular_keys == regular_pages(all),
                trailing_keys == trailing_pages(all),
                regular == keys.take(it.index()).to_set().intersect(regular_keys).len(),
                trailing == keys.take(it.index()).to_set().intersect(trailing_keys).len(),
                regular <= it.index(),
                trailing <= it.index(),
        {
            proof {
                let seen = keys.take(it.index());
                let more = keys.take(it.index() + 1);
                assert(keys[it.index()] == *hash);
                assert(keys.to_set().contains(*hash));
                assert(more =~= seen.push(*hash));
                assert(more.to_set() =~= seen.to_set().insert(*hash)) by {
                    broadcast use vstd::seq_lib::group_seq_properties;

                }
                assert(!seen.to_set().contains(*hash));
                vstd::seq_lib::seq_to_set_is_finite(seen);
                assert(more.to_set().intersect(regular_keys) =~= if regular_keys.contains(*hash) {
                    seen.to_set().intersect(regular_keys).insert(*hash)
                } else {
                    seen.to_set().intersect(regular_keys)
                });
                assert(more.to_set().intersect(trailing_keys) =~= if trailing_keys.contains(*hash) {
                    seen.to_set().intersect(trailing_keys).insert(*hash)
                } else {
                    seen.to_set().intersect(trailing_keys)
                });
            }
            let components = self.components(ExternalSequenceBlockHash(*hash));
            if components.regular {
                regular = regular + 1;
            }
            if components.trailing {
                trailing = trailing + 1;
            }
        }
        proof {
            assert(keys.take(keys.len() as int) =~= keys);
            assert(keys.to_set().intersect(regular_keys) =~= regular_keys);
            assert(keys.to_set().intersect(trailing_keys) =~= trailing_keys);
        }
        SglangL3Report {
            capacity_bytes: self.capacity_bytes,
            used_bytes: self.used_bytes,
            peak_bytes: self.peak_bytes,
            inserted_bytes: self.inserted_bytes,
            evicted_bytes: self.evicted_bytes,
            rejected_bytes: self.rejected_bytes,
            page_evictions: self.page_evictions,
            final_pages: self.pages.len() as u64,
            final_regular_pages: regular as u64,
            final_trailing_pages: trailing as u64,
        }
    }
}

} // verus!
