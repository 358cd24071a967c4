//! One worker's host tier: which pages it holds, which it knows on the device,
//! and the recency indexes that decide what gives way.

use crate::geometry::{no_components, ComponentMask};
use crate::l2_model::{L2Model, ResidentPage};
use crate::prefix::{is_usable_prefix, lemma_scan_step, lemma_usable_prefix};
use crate::protocols::{hash_values, ExternalSequenceBlockHash, SglangHiCacheArgs};
use crate::recency::{in_recency_order, lemma_walk_order, older, RecencyIndex};
use std::collections::HashMap;
use vstd::prelude::*;
use vstd::std_specs::btree::spec_btree_keys_iter;
use vstd::std_specs::hash::spec_keys_iter;
use vstd::std_specs::iter::IteratorSpec;

verus! {

/// What a backup left on the host.
#[derive(Clone, Copy, Debug, PartialEq, Eq, Structural)]
pub struct BackupOutcome {
    pub stored: ComponentMask,
    pub inserted_full: bool,
}

#[derive(Debug)]
pub struct WorkerL2 {
    full_capacity_pages: usize,
    swa_capacity_pages: usize,
    clock: u64,
    pages: HashMap<u64, ResidentPage>,
    full_lru: RecencyIndex,
    swa_lru: RecencyIndex,
    device_swa_lru: RecencyIndex,
}

impl View for WorkerL2 {
    type V = L2Model;

    closed spec fn view(&self) -> L2Model {
        L2Model {
            full_capacity: self.full_capacity_pages as nat,
            swa_capacity: self.swa_capacity_pages as nat,
            clock: self.clock,
            pages: self.pages@,
        }
    }
}

impl WorkerL2 {
    /// The model's invariant holds, and the recency indexes list just what the
    /// pages say.
    pub closed spec fn wf(&self) -> bool {
        &&& self@.inv()
        &&& self.full_lru@ == self@.full_entries()
        &&& self.swa_lru@ == self@.swa_entries()
        &&& self.device_swa_lru@ == self@.device_swa_entries()
    }

    pub proof fn lemma_wf_inv(&self)
        requires
            self.wf(),
        ensures
            self@.inv(),
    {
    }

    pub fn new(config: &SglangHiCacheArgs, page_size: usize) -> (l2: Self)
        requires
            page_size > 0,
        ensures
            l2.wf(),
            l2@ == L2Model::fresh(
                (config.l2_full_capacity_tokens / page_size) as nat,
                (config.l2_swa_capacity_tokens / page_size) as nat,
            ),
    {
        let l2 = WorkerL2 {
            full_capacity_pages: config.l2_full_capacity_tokens / page_size,
            swa_capacity_pages: config.l2_swa_capacity_tokens / page_size,
            clock: 0,
            pages: HashMap::new(),
            full_lru: RecencyIndex::new(),
            swa_lru: RecencyIndex::new(),
            device_swa_lru: RecencyIndex::new(),
        };
        proof {
            let m = l2@;
            assert(m.full_pages() =~= Set::<u64>::empty());
            assert(m.swa_pages() =~= Set::<u64>::empty());
            assert(m.full_entries() =~= Set::<(u64, u64)>::empty());
            assert(m.swa_entries() =~= Set::<(u64, u64)>::empty());
            assert(m.device_swa_entries() =~= Set::<(u64, u64)>::empty());
        }
        l2
    }

    fn page(&self, hash: u64) -> (page: Option<ResidentPage>)
        ensures
            page == (if self@.pages.contains_key(hash) {
                Some(self@.pages[hash])
            } else {
                None
            }),
    {
        match self.pages.get(&hash) {
            Some(page) => Some(*page),
            None => None,
        }
    }

    fn page_or_empty(&self, hash: u64) -> (page: ResidentPage)
        ensures
            page == self@.page(hash),
    {
        match self.page(hash) {
            Some(page) => page,
            None => ResidentPage {
                host: ComponentMask::default(),
                device: ComponentMask::default(),
                host_full_access: 0,
                host_swa_access: 0,
                device_swa_access: 0,
            },
        }
    }

    /// Stamps what the host holds of a page as used now.
    pub fn touch(&mut self, hash: ExternalSequenceBlockHash)
        requires
            old(self).wf(),
        ensures
            final(self).wf(),
            final(self)@ == old(self)@.touch(hash.0),
    {
        let mut page = match self.page(hash.0) {
            Some(page) => page,
            None => {
                return;
            },
        };
        self.clock = self.clock.saturating_add(1);
        if page.host.regular {
            self.full_lru.remove(page.host_full_access, hash.0);
            page.host_full_access = self.clock;
            self.full_lru.insert(page.host_full_access, hash.0);
        }
        if page.host.trailing {
            self.swa_lru.remove(page.host_swa_access, hash.0);
            page.host_swa_access = self.clock;
            self.swa_lru.insert(page.host_swa_access, hash.0);
        }
        self.pages.insert(hash.0, page);
        proof {
            let m = L2Model { clock: self.clock, ..old(self)@ };
            old(self)@.lemma_inv_later_clock(self.clock);
            m.lemma_inv_with_page(hash.0, page);
            assert(self@ == m.with_page(hash.0, page));
            assert(self.full_lru@ =~= self@.full_entries());
            assert(self.swa_lru@ =~= self@.swa_entries());
            assert(self.device_swa_lru@ =~= self@.device_swa_entries());
        }
    }

    /// Stamps the trailing group that the device holds of a page as used now.
    pub fn touch_device_boundary(&mut self, hash: ExternalSequenceBlockHash)
        requires
            old(self).wf(),
        ensures
            final(self).wf(),
            final(self)@ == old(self)@.touch_device_boundary(hash.0),
    {
        let mut page = match self.page(hash.0) {
            Some(page) => page,
            None => {
                return;
            },
        };
        if !page.device.trailing {
            return;
        }
        self.clock = self.clock.saturating_add(1);
        self.device_swa_lru.remove(page.device_swa_access, hash.0);
        page.device_swa_access = self.clock;
        self.device_swa_lru.insert(page.device_swa_access, hash.0);
        self.pages.insert(hash.0, page);
        proof {
            let m = L2Model { clock: self.clock, ..old(self)@ };
            old(self)@.lemma_inv_later_clock(self.clock);
            m.lemma_inv_with_page(hash.0, page);
            assert(self@ == m.with_page(hash.0, page));
            assert(self.full_lru@ =~= self@.full_entries());
            assert(self.swa_lru@ =~= self@.swa_entries());
            assert(self.device_swa_lru@ =~= self@.device_swa_entries());
        }
    }

    /// The device stored the given groups of a page.
    pub fn mark_device_stored(
        &mut self,
        hash: ExternalSequenceBlockHash,
        components: ComponentMask,
    )
        requires
            old(self).wf(),
        ensures
            final(self).wf(),
            final(self)@ == old(self)@.mark_device_stored(hash.0, components),
    {
        let mut page = self.page_or_empty(hash.0);
        page.device = page.device.union(components);
        if page.device.trailing {
            self.device_swa_lru.insert(page.device_swa_access, hash.0);
        }
        self.pages.insert(hash.0, page);
        proof {
            old(self)@.lemma_inv_with_page(hash.0, page);
            assert(self@ == old(self)@.with_page(hash.0, page));
            assert(self.full_lru@ =~= self@.full_entries());
            assert(self.swa_lru@ =~= self@.swa_entries());
            assert(self.device_swa_lru@ =~= self@.device_swa_entries());
        }
        self.touch_device_boundary(hash);
    }

    /// Puts a page in place, or forgets it where nothing of it is left.
    fn put_pruned(&mut self, hash: u64, page: ResidentPage)
        ensures
            final(self)@ == old(self)@.with_pruned_page(hash, page),
            final(self).full_lru == old(self).full_lru,
            final(self).swa_lru == old(self).swa_lru,
            final(self).device_swa_lru == old(self).device_swa_lru,
    {
        if !page.host.regular && !page.host.trailing && !page.device.regular
            && !page.device.trailing {
            self.pages.remove(&hash);
        } else {
            self.pages.insert(hash, page);
        }
    }

    /// The device dropped the trailing group of a page.
    pub fn mark_device_trailing_removed(&mut self, hash: ExternalSequenceBlockHash)
        requires
            old(self).wf(),
        ensures
            final(self).wf(),
            final(self)@ == old(self)@.mark_device_trailing_removed(hash.0),
    {
        let mut page = match self.page(hash.0) {
            Some(page) => page,
            None => {
                return;
            },
        };
        if page.device.trailing {
            self.device_swa_lru.remove(page.device_swa_access, hash.0);
            page.device.trailing = false;
        }
        self.put_pruned(hash.0, page);
        proof {
            old(self)@.lemma_inv_with_page(hash.0, page);
            assert(self.full_lru@ =~= self@.full_entries());
            assert(self.swa_lru@ =~= self@.swa_entries());
            assert(self.device_swa_lru@ =~= self@.device_swa_entries());
        }
    }

    /// The device dropped a page; returns the groups that it had of it.
    pub fn mark_device_removed(&mut self, hash: ExternalSequenceBlockHash) -> (removed:
        ComponentMask)
        requires
            old(self).wf(),
        ensures
            final(self).wf(),
            final(self)@ == old(self)@.mark_device_removed(hash.0),
            removed == old(self)@.device(hash.0),
    {
        let mut page = match self.page(hash.0) {
            Some(page) => page,
            None => {
                return ComponentMask::default();
            },
        };
        let removed = page.device;
        if page.device.trailing {
            self.device_swa_lru.remove(page.device_swa_access, hash.0);
        }
        page.device = ComponentMask::default();
        self.put_pruned(hash.0, page);
        proof {
            old(self)@.lemma_inv_with_page(hash.0, page);
            assert(self.full_lru@ =~= self@.full_entries());
            assert(self.swa_lru@ =~= self@.swa_entries());
            assert(self.device_swa_lru@ =~= self@.device_swa_entries());
        }
        removed
    }

    /// Takes a page off the host with both its groups.
    pub fn remove_regular(&mut self, hash: ExternalSequenceBlockHash)
        requires
            old(self).wf(),
        ensures
            final(self).wf(),
            final(self)@ == old(self)@.remove_regular(hash.0),
    {
        let mut page = match self.page(hash.0) {
            Some(page) => page,
            None => {
                return;
            },
        };
        self.full_lru.remove(page.host_full_access, hash.0);
        self.swa_lru.remove(page.host_swa_access, hash.0);
        page.host = ComponentMask::default();
        self.put_pruned(hash.0, page);
        proof {
            old(self)@.lemma_inv_with_page(hash.0, page);
            assert(self.full_lru@ =~= self@.full_entries());
            assert(self.swa_lru@ =~= self@.swa_entries());
            assert(self.device_swa_lru@ =~= self@.device_swa_entries());
        }
    }

    /// Takes the trailing group of a page off the host.
    pub fn remove_trailing(&mut self, hash: ExternalSequenceBlockHash)
        requires
            old(self).wf(),
        ensures
            final(self).wf(),
            final(self)@ == old(self)@.remove_trailing(hash.0),
    {
        let mut page = match self.page(hash.0) {
            Some(page) => page,
            None => {
                return;
            },
        };
        self.swa_lru.remove(page.host_swa_access, hash.0);
        page.host.trailing = false;
        self.put_pruned(hash.0, page);
        proof {
            old(self)@.lemma_inv_with_page(hash.0, page);
            assert(self.full_lru@ =~= self@.full_entries());
            assert(self.swa_lru@ =~= self@.swa_entries());
            assert(self.device_swa_lru@ =~= self@.device_swa_entries());
        }
    }

    /// The least recently used page that may leave the host.
    fn full_victim(&self) -> (victim: Option<ExternalSequenceBlockHash>)
        requires
            self.wf(),
        ensures
            match victim {
                Some(hash) => self@.full_victim() == Some(hash.0),
                None => self@.full_victim() is None,
            },
    {
        let ghost order = spec_btree_keys_iter(&self.full_lru.entries).remaining().unref();
        let ghost m = self@;
        proof {
            lemma_walk_order(&self.full_lru);
            assert forall|h: u64| #[trigger] m.host(h).regular implies order.to_set().contains(
                (m.page(h).host_full_access, h),
            ) by {
                assert(m.full_entries().contains((m.page(h).host_full_access, h)));
            }
            assert forall|i: int| 0 <= i < order.len() implies m.full_entries().contains(
                #[trigger] order[i],
            ) by {
                assert(order.to_set().contains(order[i]));
            }
        }
        for e in it: self.full_lru.entries.iter()
            invariant
                m == self@,
                it.seq().unref() == order,
                in_recency_order(self.full_lru@, order),
                forall|i: int| 0 <= i < order.len() ==> m.full_entries().contains(#[trigger] order[i]),
                forall|h: u64| #[trigger]
                    m.host(h).regular ==> order.to_set().contains((m.page(h).host_full_access, h)),
                forall|i: int| 0 <= i < it.index() ==> !m.evictable((#[trigger] order[i]).1),
        {
            assert(order[it.index()] == *e);
            assert(m.full_entries().contains(*e));
            let page = self.page_or_empty(e.1);
            if !page.device.regular {
                proof {
                    assert(m.evictable(e.1));
                    assert forall|o: u64| #[trigger] m.evictable(o) && o != e.1 implies older(
                        (m.page(e.1).host_full_access, e.1),
                        (m.page(o).host_full_access, o),
                    ) by {
                        let entry = (m.page(o).host_full_access, o);
                        assert(m.host(o).regular);
                        assert(order.to_set().contains(entry));
                        let k = choose|k: int| 0 <= k < order.len() && order[k] == entry;
                        assert(order[k] == entry);
                    }
                    m.lemma_full_victim(e.1);
                }
                return Some(ExternalSequenceBlockHash(e.1));
            }
            assert(!m.evictable(order[it.index()].1));
        }
        assert forall|h: u64| !m.is_full_victim(h) by {
            if m.evictable(h) {
                let entry = (m.page(h).host_full_access, h);
                assert(m.host(h).regular);
                assert(order.to_set().contains(entry));
                let k = choose|k: int| 0 <= k < order.len() && order[k] == entry;
                assert(order[k] == entry);
            }
        }
        None
    }

    /// The page whose trailing group on the host was used least recently.
    fn swa_victim(&self) -> (victim: Option<ExternalSequenceBlockHash>)
        requires
            self.wf(),
        ensures
            match victim {
                Some(hash) => self@.swa_victim() == Some(hash.0),
                None => self@.swa_victim() is None,
            },
    {
        let ghost m = self@;
        match self.swa_lru.first() {
            Some(e) => {
                proof {
                    assert(m.swa_entries().contains(e));
                    assert forall|o: u64|
                        #![trigger m.host(o)]
                        m.host(o).trailing && o != e.1 implies older(
                        (m.page(e.1).host_swa_access, e.1),
                        (m.page(o).host_swa_access, o),
                    ) by {
                        assert(m.swa_entries().contains((m.page(o).host_swa_access, o)));
                    }
                    m.lemma_swa_victim(e.1);
                }
                Some(ExternalSequenceBlockHash(e.1))
            },
            None => {
                assert forall|h: u64| !m.is_swa_victim(h) by {
                    if m.host(h).trailing {
                        assert(m.swa_entries().contains((m.page(h).host_swa_access, h)));
                    }
                }
                None
            },
        }
    }

    /// Regular groups on the host.
    pub fn full_resident_pages(&self) -> (count: usize)
        requires
            self.wf(),
        ensures
            count == self@.full_pages().len(),
    {
        proof {
            self@.lemma_entry_counts();
        }
        self.full_lru.len()
    }

    /// Trailing groups on the host.
    pub fn swa_resident_pages(&self) -> (count: usize)
        requires
            self.wf(),
        ensures
            count == self@.swa_pages().len(),
    {
        proof {
            self@.lemma_entry_counts();
        }
        self.swa_lru.len()
    }

    pub fn has_regular(&self, hash: ExternalSequenceBlockHash) -> (has: bool)
        ensures
            has == self@.host(hash.0).regular,
    {
        self.page_or_empty(hash.0).host.regular
    }

    pub fn has_trailing(&self, hash: ExternalSequenceBlockHash) -> (has: bool)
        ensures
            has == self@.host(hash.0).trailing,
    {
        self.page_or_empty(hash.0).host.trailing
    }

    pub fn has_device_trailing(&self, hash: ExternalSequenceBlockHash) -> (has: bool)
        ensures
            has == self@.device(hash.0).trailing,
    {
        self.page_or_empty(hash.0).device.trailing
    }

    /// The groups of a page that the device holds.
    pub fn device_components(&self, hash: ExternalSequenceBlockHash) -> (components: ComponentMask)
        ensures
            components == self@.device(hash.0),
    {
        self.page_or_empty(hash.0).device
    }

    /// Takes in a page's regular group, if room can be made for it. As the host
    /// never holds more than its capacity, one victim makes room enough.
    fn admit_regular(&mut self, hash: ExternalSequenceBlockHash) -> (admitted: bool)
        requires
            old(self).wf(),
            !old(self)@.host(hash.0).regular,
        ensures
            final(self).wf(),
            final(self)@ == old(self)@.admit_regular(hash.0),
            admitted == final(self)@.host(hash.0).regular,
    {
        if self.full_resident_pages() >= self.full_capacity_pages {
            match self.full_victim() {
                Some(victim) => {
                    self.remove_regular(victim);
                },
                None => {},
            }
        }
        let ghost room = *self;
        assert(room@ == old(self)@.make_full_room());
        assert(!room@.host(hash.0).regular);
        if self.full_resident_pages() < self.full_capacity_pages {
            let mut page = self.page_or_empty(hash.0);
            page.host.regular = true;
            self.full_lru.insert(page.host_full_access, hash.0);
            self.pages.insert(hash.0, page);
            proof {
                room@.lemma_inv_with_page(hash.0, page);
                assert(self@ == room@.with_page(hash.0, page));
                assert(self.full_lru@ =~= self@.full_entries());
                assert(self.swa_lru@ =~= self@.swa_entries());
                assert(self.device_swa_lru@ =~= self@.device_swa_entries());
            }
            true
        } else {
            false
        }
    }

    /// Takes in a page's trailing group, if room can be made for it.
    fn admit_trailing(&mut self, hash: ExternalSequenceBlockHash)
        requires
            old(self).wf(),
            old(self)@.host(hash.0).regular,
            !old(self)@.host(hash.0).trailing,
        ensures
            final(self).wf(),
            final(self)@ == old(self)@.admit_trailing(hash.0),
    {
        if self.swa_resident_pages() >= self.swa_capacity_pages {
            match self.swa_victim() {
                Some(victim) => {
                    self.remove_trailing(victim);
                },
                None => {},
            }
        }
        let ghost room = *self;
        assert(room@ == old(self)@.make_swa_room());
        assert(room@.host(hash.0).regular && !room@.host(hash.0).trailing);
        if self.swa_resident_pages() < self.swa_capacity_pages {
            let mut page = self.page_or_empty(hash.0);
            page.host.trailing = true;
            self.swa_lru.insert(page.host_swa_access, hash.0);
            self.pages.insert(hash.0, page);
            proof {
                room@.lemma_inv_with_page(hash.0, page);
                assert(self@ == room@.with_page(hash.0, page));
                assert(self.full_lru@ =~= self@.full_entries());
                assert(self.swa_lru@ =~= self@.swa_entries());
                assert(self.device_swa_lru@ =~= self@.device_swa_entries());
            }
        }
    }

    /// Copies the offered groups of a page to the host as far as there is room.
    pub fn insert(
        &mut self,
        hash: ExternalSequenceBlockHash,
        components: ComponentMask,
    ) -> (outcome: BackupOutcome)
        requires
            old(self).wf(),
        ensures
            final(self).wf(),
            final(self)@ == old(self)@.insert(hash.0, components),
            outcome.stored == final(self)@.host(hash.0),
            outcome.inserted_full == old(self)@.insert_adds_full(hash.0, components),
    {
        let mut inserted_full = false;
        if components.regular && !self.has_regular(hash) {
            inserted_full = self.admit_regular(hash);
        }
        let ghost a = self@;
        if components.trailing && self.has_regular(hash) && !self.has_trailing(hash) {
            self.admit_trailing(hash);
        }
        assert(self@.host(hash.0).regular == a.host(hash.0).regular);
        self.touch(hash);
        BackupOutcome { stored: self.page_or_empty(hash.0).host, inserted_full }
    }

    /// The device dropped everything.
    pub fn clear_device(&mut self)
        requires
            old(self).wf(),
        ensures
            final(self).wf(),
            final(self)@ == old(self)@.clear_device(),
    {
        let mut kept: HashMap<u64, ResidentPage> = HashMap::new();
        let ghost keys = spec_keys_iter(&self.pages).remaining().unref();
        let ghost all = self.pages@;
        for hash in it: self.pages.keys()
            invariant
                it.seq().unref() == keys,
                keys.to_set() == all.dom(),
                self.pages@ == all,
                forall|h: u64| #[trigger]
                    kept@.contains_key(h) <==> keys.take(it.index()).contains(h) && all[h].host
                        != no_components(),
                forall|h: u64| #[trigger]
                    kept@.contains_key(h) ==> kept@[h] == (ResidentPage {
                        device: no_components(),
                        ..all[h]
                    }),
        {
            proof {
                assert(keys[it.index()] == *hash);
                assert(keys.to_set().contains(*hash));
                assert(keys.take(it.index() + 1) =~= keys.take(it.index()).push(*hash));
                assert(forall|h: u64| #[trigger]
                    keys.take(it.index() + 1).contains(h) <==> keys.take(it.index()).contains(h) || h
                        == *hash) by {
                    broadcast use vstd::seq_lib::group_seq_properties;

                }
            }
            let mut page = self.page_or_empty(*hash);
            page.device = ComponentMask::default();
            if page.host.regular || page.host.trailing {
                kept.insert(*hash, page);
            }
        }
        self.device_swa_lru.clear();
        self.pages = kept;
        proof {
            assert(keys.take(keys.len() as int) =~= keys);
            assert forall|h: u64| keys.contains(h) <==> #[trigger] all.contains_key(h) by {
                assert(keys.to_set().contains(h) <==> all.dom().contains(h));
            }
            assert(self@ =~= old(self)@.clear_device());
            assert(self@.full_pages() =~= old(self)@.full_pages());
            assert(self@.swa_pages() =~= old(self)@.swa_pages());
            assert(self.full_lru@ =~= self@.full_entries());
            assert(self.swa_lru@ =~= self@.swa_entries());
            assert(self.device_swa_lru@ =~= self@.device_swa_entries());
        }
    }

    /// How many pages after the first `device_blocks` the host adds to what can
    /// be reused.
    pub fn extension_blocks(
        &self,
        sequence: &[ExternalSequenceBlockHash],
        device_blocks: usize,
    ) -> (blocks: usize)
        ensures
            blocks == self@.extension(hash_values(sequence@), device_blocks as int),
    {
        let ghost masks = self@.host_masks(hash_values(sequence@));
        let mut best: usize = device_blocks;
        let mut index: usize = device_blocks;
        assert(device_blocks <= sequence.len() ==> is_usable_prefix(
            masks.take(index as int),
            index as int,
            best as int,
        ));
        while index < sequence.len()
            invariant
                masks == self@.host_masks(hash_values(sequence@)),
                device_blocks <= best,
                device_blocks <= index,
                device_blocks <= sequence.len() ==> best <= index <= sequence.len(),
                device_blocks > sequence.len() ==> best == device_blocks,
                device_blocks <= sequence.len() ==> is_usable_prefix(
                    masks.take(index as int),
                    device_blocks as int,
                    best as int,
                ),
                forall|i: int| device_blocks <= i < index ==> (#[trigger] masks[i]).regular,
            decreases sequence.len() - index,
        {
            let hash = sequence[index];
            proof {
                assert(masks[index as int] == self@.host(hash.0));
                lemma_scan_step(masks, device_blocks as int, index as int, best as int);
            }
            if !self.has_regular(hash) {
                proof {
                    lemma_usable_prefix(masks, device_blocks as int, best as int);
                }
                return best - device_blocks;
            }
            if self.has_trailing(hash) {
                best = index + 1;
            }
            index = index + 1;
        }
        proof {
            if device_blocks <= sequence.len() {
                assert(masks.take(index as int) =~= masks);
            } else {
                assert(is_usable_prefix(masks, device_blocks as int, best as int));
            }
            lemma_usable_prefix(masks, device_blocks as int, best as int);
        }
        best - device_blocks
    }

    /// How many pages from the start the device alone can serve.
    pub fn device_prefix_blocks(&self, sequence: &[ExternalSequenceBlockHash]) -> (blocks: usize)
        ensures
            blocks == self@.device_prefix(hash_values(sequence@)),
    {
        let ghost masks = self@.device_masks(hash_values(sequence@));
        let mut best: usize = 0;
        let mut index: usize = 0;
        while index < sequence.len()
            invariant
                masks == self@.device_masks(hash_values(sequence@)),
                best <= index <= sequence.len(),
                is_usable_prefix(masks.take(index as int), 0, best as int),
                forall|i: int| 0 <= i < index ==> (#[trigger] masks[i]).regular,
            decreases sequence.len() - index,
        {
            let hash = sequence[index];
            let device = self.device_components(hash);
            proof {
                assert(masks[index as int] == device);
                lemma_scan_step(masks, 0, index as int, best as int);
            }
            if !device.regular {
                proof {
                    lemma_usable_prefix(masks, 0, best as int);
                }
                return best;
            }
            if device.trailing {
                best = index + 1;
            }
            index = index + 1;
        }
        proof {
            assert(masks.take(index as int) =~= masks);
            lemma_usable_prefix(masks, 0, best as int);
        }
        best
    }
}

} // verus!
