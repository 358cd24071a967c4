//! Mathematical model of the shared, byte-bounded lower tier (L3).

use crate::geometry::{
    no_components, ComponentMask, DSV4_REGULAR_BYTES_PER_PAGE, DSV4_TRAILING_BYTES_PER_PAGE,
};
use crate::l2_model::tick;
use crate::prefix::usable_prefix;
use crate::recency::older;
use vstd::prelude::*;

verus! {

#[derive(Clone, Copy, Debug, PartialEq, Eq, Structural)]
pub struct L3Page {
    pub components: ComponentMask,
    pub last_access: u64,
}

/// Addition that stops at the largest value.
pub open spec fn sat_add(a: u64, b: int) -> u64 {
    if a + b > u64::MAX {
        u64::MAX
    } else {
        (a + b) as u64
    }
}

/// Subtraction that stops at zero.
pub open spec fn sat_sub(a: u64, b: int) -> u64 {
    if a < b {
        0
    } else {
        (a - b) as u64
    }
}

/// Pages whose regular group is stored.
pub open spec fn regular_pages(pages: Map<u64, L3Page>) -> Set<u64> {
    pages.dom().filter(|h: u64| pages[h].components.regular)
}

/// Pages whose trailing group is stored.
pub open spec fn trailing_pages(pages: Map<u64, L3Page>) -> Set<u64> {
    pages.dom().filter(|h: u64| pages[h].components.trailing)
}

/// Bytes that the stored groups of all pages occupy.
pub open spec fn stored_bytes(pages: Map<u64, L3Page>) -> int {
    regular_pages(pages).len() * DSV4_REGULAR_BYTES_PER_PAGE + trailing_pages(pages).len()
        * DSV4_TRAILING_BYTES_PER_PAGE
}

#[verifier::ext_equal]
pub struct L3Model {
    pub capacity_bytes: u64,
    pub used_bytes: u64,
    pub peak_bytes: u64,
    pub inserted_bytes: u64,
    pub evicted_bytes: u64,
    pub rejected_bytes: u64,
    pub page_evictions: u64,
    pub clock: u64,
    pub pages: Map<u64, L3Page>,
}

impl L3Model {
    pub open spec fn fresh(capacity_bytes: u64) -> Self {
        L3Model {
            capacity_bytes,
            used_bytes: 0,
            peak_bytes: 0,
            inserted_bytes: 0,
            evicted_bytes: 0,
            rejected_bytes: 0,
            page_evictions: 0,
            clock: 0,
            pages: Map::empty(),
        }
    }

    pub open spec fn components(self, hash: u64) -> ComponentMask {
        if self.pages.contains_key(hash) {
            self.pages[hash].components
        } else {
            no_components()
        }
    }

    /// Recency entries of the stored pages.
    pub open spec fn entries(self) -> Set<(u64, u64)> {
        Set::new(
            |e: (u64, u64)| self.pages.contains_key(e.1) && self.pages[e.1].last_access == e.0,
        )
    }

    /// Whether a byte counter may have stopped at its largest value: only an
    /// unbounded tier takes in so much.
    pub open spec fn saturated(self) -> bool {
        self.capacity_bytes == u64::MAX && self.inserted_bytes == u64::MAX
    }

    /// What every operation keeps: use within capacity, no page without a
    /// group, no stamp after the clock, and byte counters that agree with the
    /// pages and with each other as long as none of them has saturated.
    pub open spec fn inv(self) -> bool {
        &&& self.pages.dom().finite()
        &&& self.used_bytes <= self.capacity_bytes
        &&& self.used_bytes <= self.peak_bytes <= self.capacity_bytes
        &&& forall|h: u64| #[trigger]
            self.pages.contains_key(h) ==> {
                &&& self.pages[h].components != no_components()
                &&& self.pages[h].last_access <= self.clock
            }
        &&& !self.saturated() ==> self.used_bytes == stored_bytes(self.pages)
        &&& self.inserted_bytes < u64::MAX ==> self.used_bytes + self.evicted_bytes
            == self.inserted_bytes
    }

    /// Drops a page with all its groups.
    pub open spec fn evict(self, hash: u64) -> Self {
        if self.pages.contains_key(hash) {
            let bytes = self.pages[hash].components.byte_size() as int;
            L3Model {
                pages: self.pages.remove(hash),
                used_bytes: sat_sub(self.used_bytes, bytes),
                evicted_bytes: sat_add(self.evicted_bytes, bytes),
                page_evictions: sat_add(self.page_evictions, 1),
                ..self
            }
        } else {
            self
        }
    }

    /// `hash` is the least recently used page other than `keep`.
    pub open spec fn is_victim(self, keep: u64, hash: u64) -> bool {
        &&& self.pages.contains_key(hash) && hash != keep
        &&& forall|o: u64| #[trigger]
            self.pages.contains_key(o) && o != keep && o != hash ==> older(
                (self.pages[hash].last_access, hash),
                (self.pages[o].last_access, o),
            )
    }

    pub open spec fn victim(self, keep: u64) -> Option<u64> {
        if exists|h: u64| self.is_victim(keep, h) {
            Some(choose|h: u64| self.is_victim(keep, h))
        } else {
            None
        }
    }

    pub open spec fn fits(self, bytes: int) -> bool {
        sat_add(self.used_bytes, bytes) <= self.capacity_bytes
    }

    /// Drops pages other than `keep`, least recently used first, until `bytes`
    /// more fit.
    pub open spec fn make_room(self, keep: u64, bytes: int) -> Self
        decreases self.pages.dom().len(),
        when self.pages.dom().finite()
    {
        if self.fits(bytes) {
            self
        } else {
            match self.victim(keep) {
                Some(victim) => {
                    if self.pages.contains_key(victim) {
                        self.evict(victim).make_room(keep, bytes)
                    } else {
                        self
                    }
                },
                None => self,
            }
        }
    }

    /// Bytes that storing the offered groups of a page adds.
    pub open spec fn missing_bytes(self, hash: u64, offered: ComponentMask) -> int {
        self.components(hash).joined(offered).byte_size() - self.components(hash).byte_size()
    }

    /// Whether an offer of groups of a page ends with all of them stored.
    pub open spec fn accepts(self, hash: u64, offered: ComponentMask) -> bool {
        self.missing_bytes(hash, offered) == 0 || self.components(hash).joined(offered).byte_size()
            <= self.capacity_bytes
    }

    /// Stores the offered groups of a page beside those it has. An offer of
    /// nothing new changes nothing; one that can never fit is only counted.
    pub open spec fn put(self, hash: u64, offered: ComponentMask) -> Self {
        let missing = self.missing_bytes(hash, offered);
        if missing == 0 {
            self
        } else if !self.accepts(hash, offered) {
            L3Model { rejected_bytes: sat_add(self.rejected_bytes, missing), ..self }
        } else {
            let room = self.make_room(hash, missing);
            let used = sat_add(room.used_bytes, missing);
            L3Model {
                clock: tick(room.clock),
                pages: room.pages.insert(
                    hash,
                    L3Page {
                        components: self.components(hash).joined(offered),
                        last_access: tick(room.clock),
                    },
                ),
                used_bytes: used,
                inserted_bytes: sat_add(room.inserted_bytes, missing),
                peak_bytes: if room.peak_bytes < used { used } else { room.peak_bytes },
                ..room
            }
        }
    }

    /// Stamps a stored page as used now.
    pub open spec fn touch(self, hash: u64) -> Self {
        if self.pages.contains_key(hash) {
            let stamp = tick(self.clock);
            L3Model {
                clock: stamp,
                pages: self.pages.insert(hash, L3Page { last_access: stamp, ..self.pages[hash] }),
                ..self
            }
        } else {
            self
        }
    }

    /// Stamps the stored ones of `hashes` as used now, one after the other.
    pub open spec fn touch_all(self, hashes: Seq<u64>) -> Self
        decreases hashes.len(),
    {
        if hashes.len() == 0 {
            self
        } else {
            self.touch_all(hashes.drop_last()).touch(hashes.last())
        }
    }

    pub open spec fn masks(self, sequence: Seq<u64>) -> Seq<ComponentMask> {
        sequence.map_values(|h: u64| self.components(h))
    }

    /// Pages from the start of a sequence that this tier can serve.
    pub open spec fn prefix(self, sequence: Seq<u64>) -> int {
        usable_prefix(self.masks(sequence), 0)
    }
}

proof fn lemma_one_more(count: int, bytes: int)
    by (nonlinear_arith)
    ensures
        (count + 1) * bytes == count * bytes + bytes,
        (count - 1) * bytes == count * bytes - bytes,
        0 * bytes == 0,
{
}

pub proof fn lemma_stored_bytes_nonneg(pages: Map<u64, L3Page>)
    ensures
        stored_bytes(pages) >= 0,
{
    let r = regular_pages(pages).len() as int;
    let t = trailing_pages(pages).len() as int;
    let rb = DSV4_REGULAR_BYTES_PER_PAGE as int;
    let tb = DSV4_TRAILING_BYTES_PER_PAGE as int;
    assert(r * rb >= 0 && t * tb >= 0) by (nonlinear_arith)
        requires
            r >= 0,
            t >= 0,
            rb >= 0,
            tb >= 0,
    ;
}

/// How storing a page changes the stored bytes.
pub proof fn lemma_stored_bytes_insert(pages: Map<u64, L3Page>, hash: u64, page: L3Page)
    requires
        pages.dom().finite(),
    ensures
        stored_bytes(pages.insert(hash, page)) == stored_bytes(pages) + page.components.byte_size()
            - (if pages.contains_key(hash) {
            pages[hash].components.byte_size() as int
        } else {
            0
        }),
{
    let after = pages.insert(hash, page);
    assert(regular_pages(after) =~= if page.components.regular {
        regular_pages(pages).insert(hash)
    } else {
        regular_pages(pages).remove(hash)
    });
    assert(trailing_pages(after) =~= if page.components.trailing {
        trailing_pages(pages).insert(hash)
    } else {
        trailing_pages(pages).remove(hash)
    });
    lemma_one_more(regular_pages(pages).len() as int, DSV4_REGULAR_BYTES_PER_PAGE as int);
    lemma_one_more(trailing_pages(pages).len() as int, DSV4_TRAILING_BYTES_PER_PAGE as int);
}

/// How dropping a page changes the stored bytes.
pub proof fn lemma_stored_bytes_remove(pages: Map<u64, L3Page>, hash: u64)
    requires
        pages.dom().finite(),
        pages.contains_key(hash),
    ensures
        stored_bytes(pages.remove(hash)) == stored_bytes(pages)
            - pages[hash].components.byte_size(),
{
    let after = pages.remove(hash);
    assert(regular_pages(after) =~= regular_pages(pages).remove(hash));
    assert(trailing_pages(after) =~= trailing_pages(pages).remove(hash));
    lemma_one_more(regular_pages(pages).len() as int, DSV4_REGULAR_BYTES_PER_PAGE as int);
    lemma_one_more(trailing_pages(pages).len() as int, DSV4_TRAILING_BYTES_PER_PAGE as int);
}

impl L3Model {
    pub proof fn lemma_victim(self, keep: u64, hash: u64)
        requires
            self.is_victim(keep, hash),
        ensures
            self.victim(keep) == Some(hash),
    {
        let h = choose|h: u64| self.is_victim(keep, h);
        assert(self.is_victim(keep, h));
        assert(self.pages.contains_key(h) && self.pages.contains_key(hash));
    }

    pub proof fn lemma_evict_inv(self, hash: u64)
        requires
            self.inv(),
        ensures
            self.evict(hash).inv(),
    {
        if self.pages.contains_key(hash) {
            lemma_stored_bytes_remove(self.pages, hash);
        }
    }

    /// Where only `keep` is left, what `keep` still lacks fits, if the whole
    /// page fits at all.
    pub proof fn lemma_lone_page_fits(self, keep: u64, offered: ComponentMask)
        requires
            self.inv(),
            self.accepts(keep, offered),
            self.missing_bytes(keep, offered) > 0,
            forall|h: u64| #[trigger] self.pages.contains_key(h) ==> h == keep,
        ensures
            self.fits(self.missing_bytes(keep, offered)),
    {
        if !self.saturated() {
            if self.pages.contains_key(keep) {
                lemma_stored_bytes_remove(self.pages, keep);
                assert(self.pages.remove(keep) =~= Map::<u64, L3Page>::empty());
            } else {
                assert(self.pages =~= Map::<u64, L3Page>::empty());
            }
            assert(regular_pages(Map::<u64, L3Page>::empty()) =~= Set::<u64>::empty());
            assert(trailing_pages(Map::<u64, L3Page>::empty()) =~= Set::<u64>::empty());
            lemma_one_more(0, DSV4_REGULAR_BYTES_PER_PAGE as int);
            lemma_one_more(0, DSV4_TRAILING_BYTES_PER_PAGE as int);
        }
    }
}

} // verus!
