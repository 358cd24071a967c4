//! Mathematical model of one worker's host tier (L2) together with what the
//! model knows of the worker's device tier.

use crate::geometry::{no_components, ComponentMask};
use crate::prefix::usable_prefix;
use crate::recency::{lemma_oldest_exists, older};
use vstd::prelude::*;

verus! {

/// What is known of one page: the component groups on host and device, and the
/// stamps under which they were last used.
#[derive(Clone, Copy, Debug, PartialEq, Eq, Structural)]
pub struct ResidentPage {
    pub host: ComponentMask,
    pub device: ComponentMask,
    pub host_full_access: u64,
    pub host_swa_access: u64,
    pub device_swa_access: u64,
}

impl ResidentPage {
    /// Nothing of the page is left anywhere.
    pub open spec fn is_empty(self) -> bool {
        self.host == no_components() && self.device == no_components()
    }
}

pub open spec fn empty_page() -> ResidentPage {
    ResidentPage {
        host: no_components(),
        device: no_components(),
        host_full_access: 0,
        host_swa_access: 0,
        device_swa_access: 0,
    }
}

/// The stamp after `clock`: the clock stands still at its last value.
pub open spec fn tick(clock: u64) -> u64 {
    if clock == u64::MAX {
        clock
    } else {
        (clock + 1) as u64
    }
}

#[verifier::ext_equal]
pub struct L2Model {
    /// Pages whose regular group the host can hold.
    pub full_capacity: nat,
    /// Pages whose trailing group the host can hold.
    pub swa_capacity: nat,
    pub clock: u64,
    pub pages: Map<u64, ResidentPage>,
}

impl L2Model {
    pub open spec fn fresh(full_capacity: nat, swa_capacity: nat) -> Self {
        L2Model { full_capacity, swa_capacity, clock: 0, pages: Map::empty() }
    }

    pub open spec fn page(self, hash: u64) -> ResidentPage {
        if self.pages.contains_key(hash) {
            self.pages[hash]
        } else {
            empty_page()
        }
    }

    pub open spec fn host(self, hash: u64) -> ComponentMask {
        self.page(hash).host
    }

    pub open spec fn device(self, hash: u64) -> ComponentMask {
        self.page(hash).device
    }

    /// Pages whose regular group is on the host.
    pub open spec fn full_pages(self) -> Set<u64> {
        self.pages.dom().filter(|h: u64| self.pages[h].host.regular)
    }

    /// Pages whose trailing group is on the host.
    pub open spec fn swa_pages(self) -> Set<u64> {
        self.pages.dom().filter(|h: u64| self.pages[h].host.trailing)
    }

    /// Recency entries of the regular groups on the host.
    pub open spec fn full_entries(self) -> Set<(u64, u64)> {
        Set::new(
            |e: (u64, u64)|
                self.pages.contains_key(e.1) && self.pages[e.1].host.regular
                    && self.pages[e.1].host_full_access == e.0,
        )
    }

    /// Recency entries of the trailing groups on the host.
    pub open spec fn swa_entries(self) -> Set<(u64, u64)> {
        Set::new(
            |e: (u64, u64)|
                self.pages.contains_key(e.1) && self.pages[e.1].host.trailing
                    && self.pages[e.1].host_swa_access == e.0,
        )
    }

    /// Recency entries of the trailing groups on the device.
    pub open spec fn device_swa_entries(self) -> Set<(u64, u64)> {
        Set::new(
            |e: (u64, u64)|
                self.pages.contains_key(e.1) && self.pages[e.1].device.trailing
                    && self.pages[e.1].device_swa_access == e.0,
        )
    }

    /// What every operation keeps: residency within capacity, a trailing group
    /// only beside its regular group on the host, and no stamp after the clock.
    pub open spec fn inv(self) -> bool {
        &&& self.pages.dom().finite()
        &&& self.full_pages().len() <= self.full_capacity
        &&& self.swa_pages().len() <= self.swa_capacity
        &&& forall|h: u64| #[trigger]
            self.pages.contains_key(h) ==> {
                let p = self.pages[h];
                &&& p.host.trailing ==> p.host.regular
                &&& p.host_full_access <= self.clock
                &&& p.host_swa_access <= self.clock
                &&& p.device_swa_access <= self.clock
            }
    }

    /// No page is kept of which nothing is left.
    pub open spec fn tidy(self) -> bool {
        forall|h: u64| #[trigger] self.pages.contains_key(h) ==> !self.pages[h].is_empty()
    }

    pub open spec fn with_page(self, hash: u64, page: ResidentPage) -> Self {
        L2Model { pages: self.pages.insert(hash, page), ..self }
    }

    /// Replaces a page, and forgets it where nothing of it is left.
    pub open spec fn with_pruned_page(self, hash: u64, page: ResidentPage) -> Self {
        if page.is_empty() {
            L2Model { pages: self.pages.remove(hash), ..self }
        } else {
            self.with_page(hash, page)
        }
    }

    pub open spec fn touch_device_boundary(self, hash: u64) -> Self {
        if self.device(hash).trailing {
            let stamp = tick(self.clock);
            L2Model { clock: stamp, ..self }.with_page(
                hash,
                ResidentPage { device_swa_access: stamp, ..self.pages[hash] },
            )
        } else {
            self
        }
    }

    pub open spec fn mark_device_stored(self, hash: u64, components: ComponentMask) -> Self {
        let page = self.page(hash);
        self.with_page(
            hash,
            ResidentPage { device: page.device.joined(components), ..page },
        ).touch_device_boundary(hash)
    }

    pub open spec fn mark_device_trailing_removed(self, hash: u64) -> Self {
        if self.pages.contains_key(hash) {
            let page = self.pages[hash];
            self.with_pruned_page(
                hash,
                ResidentPage {
                    device: ComponentMask { trailing: false, ..page.device },
                    ..page
                },
            )
        } else {
            self
        }
    }

    pub open spec fn mark_device_removed(self, hash: u64) -> Self {
        if self.pages.contains_key(hash) {
            self.with_pruned_page(
                hash,
                ResidentPage { device: no_components(), ..self.pages[hash] },
            )
        } else {
            self
        }
    }

    /// Nothing is left on the device; what is on the host stays.
    pub open spec fn clear_device(self) -> Self {
        L2Model {
            pages: Map::new(
                |h: u64| self.pages.contains_key(h) && self.pages[h].host != no_components(),
                |h: u64| ResidentPage { device: no_components(), ..self.pages[h] },
            ),
            ..self
        }
    }

    /// Stamps what the host holds of a page as used now.
    pub open spec fn touch(self, hash: u64) -> Self {
        if self.pages.contains_key(hash) {
            let stamp = tick(self.clock);
            let page = self.pages[hash];
            L2Model { clock: stamp, ..self }.with_page(
                hash,
                ResidentPage {
                    host_full_access: if page.host.regular { stamp } else { page.host_full_access },
                    host_swa_access: if page.host.trailing { stamp } else { page.host_swa_access },
                    ..page
                },
            )
        } else {
            self
        }
    }

    /// Takes a page off the host with both its groups.
    pub open spec fn remove_regular(self, hash: u64) -> Self {
        if self.pages.contains_key(hash) {
            self.with_pruned_page(hash, ResidentPage { host: no_components(), ..self.pages[hash] })
        } else {
            self
        }
    }

    /// Takes the trailing group of a page off the host.
    pub open spec fn remove_trailing(self, hash: u64) -> Self {
        if self.pages.contains_key(hash) {
            let page = self.pages[hash];
            self.with_pruned_page(
                hash,
                ResidentPage { host: ComponentMask { trailing: false, ..page.host }, ..page },
            )
        } else {
            self
        }
    }

    /// Whether a page may lose its place among the regular groups on the host:
    /// it may not while its regular group is on the device.
    pub open spec fn evictable(self, hash: u64) -> bool {
        self.host(hash).regular && !self.device(hash).regular
    }

    /// `hash` is the least recently used of the evictable pages.
    pub open spec fn is_full_victim(self, hash: u64) -> bool {
        &&& self.evictable(hash)
        &&& forall|o: u64| #[trigger]
            self.evictable(o) && o != hash ==> older(
                (self.page(hash).host_full_access, hash),
                (self.page(o).host_full_access, o),
            )
    }

    /// `hash` is the least recently used of the pages with a trailing group on the host.
    pub open spec fn is_swa_victim(self, hash: u64) -> bool {
        &&& self.host(hash).trailing
        &&& forall|o: u64|
            #![trigger self.host(o)]
            self.host(o).trailing && o != hash ==> older(
                (self.page(hash).host_swa_access, hash),
                (self.page(o).host_swa_access, o),
            )
    }

    pub open spec fn full_victim(self) -> Option<u64> {
        if exists|h: u64| self.is_full_victim(h) {
            Some(choose|h: u64| self.is_full_victim(h))
        } else {
            None
        }
    }

    pub open spec fn swa_victim(self) -> Option<u64> {
        if exists|h: u64| self.is_swa_victim(h) {
            Some(choose|h: u64| self.is_swa_victim(h))
        } else {
            None
        }
    }

    /// Gives up the least recently used evictable page where no regular group
    /// more fits.
    pub open spec fn make_full_room(self) -> Self {
        if self.full_pages().len() < self.full_capacity {
            self
        } else {
            match self.full_victim() {
                Some(victim) => self.remove_regular(victim),
                None => self,
            }
        }
    }

    /// Gives up the least recently used trailing group where no more fits.
    pub open spec fn make_swa_room(self) -> Self {
        if self.swa_pages().len() < self.swa_capacity {
            self
        } else {
            match self.swa_victim() {
                Some(victim) => self.remove_trailing(victim),
                None => self,
            }
        }
    }

    /// Takes in a page's regular group, if room can be made for it.
    pub open spec fn admit_regular(self, hash: u64) -> Self {
        let room = self.make_full_room();
        if room.full_pages().len() < room.full_capacity {
            let page = room.page(hash);
            room.with_page(
                hash,
                ResidentPage { host: ComponentMask { regular: true, ..page.host }, ..page },
            )
        } else {
            room
        }
    }

    /// Takes in a page's trailing group, if room can be made for it.
    pub open spec fn admit_trailing(self, hash: u64) -> Self {
        let room = self.make_swa_room();
        if room.swa_pages().len() < room.swa_capacity {
            let page = room.page(hash);
            room.with_page(
                hash,
                ResidentPage { host: ComponentMask { trailing: true, ..page.host }, ..page },
            )
        } else {
            room
        }
    }

    /// Copies the offered groups of a page to the host as far as there is room,
    /// the trailing group only beside the regular one, and marks the page used.
    pub open spec fn insert(self, hash: u64, components: ComponentMask) -> Self {
        let a = if components.regular && !self.host(hash).regular {
            self.admit_regular(hash)
        } else {
            self
        };
        let b = if components.trailing && a.host(hash).regular && !a.host(hash).trailing {
            a.admit_trailing(hash)
        } else {
            a
        };
        b.touch(hash)
    }

    pub open spec fn host_masks(self, sequence: Seq<u64>) -> Seq<ComponentMask> {
        sequence.map_values(|h: u64| self.host(h))
    }

    pub open spec fn device_masks(self, sequence: Seq<u64>) -> Seq<ComponentMask> {
        sequence.map_values(|h: u64| self.device(h))
    }

    /// Pages that the host adds to a reusable prefix of `from` pages.
    pub open spec fn extension(self, sequence: Seq<u64>, from: int) -> int {
        usable_prefix(self.host_masks(sequence), from) - from
    }

    /// Pages from the start that the device alone can serve.
    pub open spec fn device_prefix(self, sequence: Seq<u64>) -> int {
        usable_prefix(self.device_masks(sequence), 0)
    }

    /// Whether `insert` brings the page's regular group to the host anew.
    pub open spec fn insert_adds_full(self, hash: u64, components: ComponentMask) -> bool {
        !self.host(hash).regular && self.insert(hash, components).host(hash).regular
    }
}

/// Stamping each key once gives as many entries as there are keys.
proof fn lemma_stamped_len(keys: Set<u64>, entries: Set<(u64, u64)>, stamp: spec_fn(u64) -> u64)
    requires
        keys.finite(),
        forall|e: (u64, u64)| #[trigger]
            entries.contains(e) <==> keys.contains(e.1) && e.0 == stamp(e.1),
    ensures
        entries.finite(),
        entries.len() == keys.len(),
{
    let f = |k: u64| (stamp(k), k);
    assert(keys.map(f) =~= entries) by {
        assert forall|e: (u64, u64)| entries.contains(e) implies keys.map(f).contains(e) by {
            assert(f(e.1) == e);
        }
        assert forall|e: (u64, u64)| keys.map(f).contains(e) implies entries.contains(e) by {
            let k = choose|k: u64| keys.contains(k) && f(k) == e;
            assert(entries.contains((stamp(k), k)));
        }
    }
    keys.lemma_map_finite(f);
    vstd::set_lib::lemma_map_size(keys, entries, f);
}

impl L2Model {
    pub proof fn lemma_entry_counts(self)
        requires
            self.pages.dom().finite(),
        ensures
            self.full_entries().finite(),
            self.full_entries().len() == self.full_pages().len(),
            self.swa_entries().finite(),
            self.swa_entries().len() == self.swa_pages().len(),
    {
        lemma_stamped_len(
            self.full_pages(),
            self.full_entries(),
            |h: u64| self.pages[h].host_full_access,
        );
        lemma_stamped_len(
            self.swa_pages(),
            self.swa_entries(),
            |h: u64| self.pages[h].host_swa_access,
        );
    }

    /// How replacing a page changes which pages are resident on the host.
    pub proof fn lemma_with_page_residency(self, hash: u64, page: ResidentPage)
        ensures
            self.with_page(hash, page).full_pages() == if page.host.regular {
                self.full_pages().insert(hash)
            } else {
                self.full_pages().remove(hash)
            },
            self.with_page(hash, page).swa_pages() == if page.host.trailing {
                self.swa_pages().insert(hash)
            } else {
                self.swa_pages().remove(hash)
            },
            self.with_pruned_page(hash, page).full_pages() == self.with_page(
                hash,
                page,
            ).full_pages(),
            self.with_pruned_page(hash, page).swa_pages() == self.with_page(hash, page).swa_pages(),
    {
        let m = self.with_page(hash, page);
        let n = self.with_pruned_page(hash, page);
        assert(m.full_pages() =~= if page.host.regular {
            self.full_pages().insert(hash)
        } else {
            self.full_pages().remove(hash)
        });
        assert(m.swa_pages() =~= if page.host.trailing {
            self.swa_pages().insert(hash)
        } else {
            self.swa_pages().remove(hash)
        });
        assert(n.full_pages() =~= m.full_pages());
        assert(n.swa_pages() =~= m.swa_pages());
    }

    /// Replacing a page keeps the invariant, if what the page gains on the host
    /// fits and its stamps are not after the clock.
    pub proof fn lemma_inv_with_page(self, hash: u64, page: ResidentPage)
        requires
            self.inv(),
            page.host.trailing ==> page.host.regular,
            page.host_full_access <= self.clock,
            page.host_swa_access <= self.clock,
            page.device_swa_access <= self.clock,
            page.host.regular ==> self.host(hash).regular || self.full_pages().len()
                < self.full_capacity,
            page.host.trailing ==> self.host(hash).trailing || self.swa_pages().len()
                < self.swa_capacity,
        ensures
            self.with_page(hash, page).inv(),
            self.with_pruned_page(hash, page).inv(),
    {
        self.lemma_with_page_residency(hash, page);
        assert(self.host(hash).regular ==> self.full_pages().contains(hash));
        assert(self.host(hash).trailing ==> self.swa_pages().contains(hash));
    }

    /// Moving the clock forward keeps the invariant.
    pub proof fn lemma_inv_later_clock(self, clock: u64)
        requires
            self.inv(),
            self.clock <= clock,
        ensures
            (L2Model { clock, ..self }).inv(),
    {
        let m = L2Model { clock, ..self };
        assert(m.full_pages() =~= self.full_pages());
        assert(m.swa_pages() =~= self.swa_pages());
    }

    pub proof fn lemma_full_victim(self, hash: u64)
        requires
            self.is_full_victim(hash),
        ensures
            self.full_victim() == Some(hash),
    {
        let h = choose|h: u64| self.is_full_victim(h);
        assert(self.is_full_victim(h));
        assert(self.evictable(h) && self.evictable(hash));
    }

    pub proof fn lemma_swa_victim(self, hash: u64)
        requires
            self.is_swa_victim(hash),
        ensures
            self.swa_victim() == Some(hash),
    {
        let h = choose|h: u64| self.is_swa_victim(h);
        assert(self.is_swa_victim(h));
        assert(self.host(h).trailing && self.host(hash).trailing);
    }

    /// Where a page may be evicted, there is a least recently used one.
    pub proof fn lemma_full_victim_exists(self, hash: u64)
        requires
            self.pages.dom().finite(),
            self.evictable(hash),
        ensures
            self.full_victim() is Some,
            self.is_full_victim(self.full_victim()->0),
    {
        self.lemma_entry_counts();
        let entries = self.full_entries().filter(|e: (u64, u64)| self.evictable(e.1));
        let first = (self.page(hash).host_full_access, hash);
        assert(entries.contains(first));
        assert(entries.len() > 0) by {
            if entries.len() == 0 {
                entries.lemma_len0_is_empty();
            }
        }
        let e = lemma_oldest_exists(entries);
        assert forall|o: u64| #[trigger] self.evictable(o) && o != e.1 implies older(
            (self.page(e.1).host_full_access, e.1),
            (self.page(o).host_full_access, o),
        ) by {
            assert(entries.contains((self.page(o).host_full_access, o)));
        }
        assert(self.is_full_victim(e.1));
        self.lemma_full_victim(e.1);
    }

    /// Where the host holds a trailing group, there is a least recently used
    /// one.
    pub proof fn lemma_swa_victim_exists(self, hash: u64)
        requires
            self.pages.dom().finite(),
            self.host(hash).trailing,
        ensures
            self.swa_victim() is Some,
            self.is_swa_victim(self.swa_victim()->0),
    {
        self.lemma_entry_counts();
        let entries = self.swa_entries();
        let first = (self.page(hash).host_swa_access, hash);
        assert(entries.contains(first));
        assert(entries.len() > 0) by {
            if entries.len() == 0 {
                entries.lemma_len0_is_empty();
            }
        }
        let e = lemma_oldest_exists(entries);
        assert forall|o: u64|
            #![trigger self.host(o)]
            self.host(o).trailing && o != e.1 implies older(
            (self.page(e.1).host_swa_access, e.1),
            (self.page(o).host_swa_access, o),
        ) by {
            assert(entries.contains((self.page(o).host_swa_access, o)));
        }
        assert(self.is_swa_victim(e.1));
        self.lemma_swa_victim(e.1);
    }

    /// Same capacities, and no page without anything left.
    pub open spec fn kept_from(self, before: Self) -> bool {
        &&& self.full_capacity == before.full_capacity
        &&& self.swa_capacity == before.swa_capacity
        &&& before.tidy() ==> self.tidy()
    }

    pub proof fn lemma_device_ops_keep(self, hash: u64, components: ComponentMask)
        ensures
            components != no_components() ==> self.mark_device_stored(hash, components).kept_from(
                self,
            ),
            self.mark_device_removed(hash).kept_from(self),
            self.mark_device_trailing_removed(hash).kept_from(self),
            self.clear_device().kept_from(self),
            self.touch_device_boundary(hash).kept_from(self),
    {
    }

    pub proof fn lemma_insert_keeps(self, hash: u64, components: ComponentMask)
        ensures
            self.insert(hash, components).kept_from(self),
            self.touch(hash).kept_from(self),
    {
        let a = if components.regular && !self.host(hash).regular {
            self.admit_regular(hash)
        } else {
            self
        };
        assert(self.make_full_room().kept_from(self));
        assert(a.kept_from(self));
        assert(a.make_swa_room().kept_from(a));
        let b = if components.trailing && a.host(hash).regular && !a.host(hash).trailing {
            a.admit_trailing(hash)
        } else {
            a
        };
        assert(b.kept_from(a));
    }
}

} // verus!
