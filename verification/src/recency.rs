//! Recency order over pages: entries `(access stamp, page hash)`, oldest first.

use std::collections::BTreeSet;
use vstd::prelude::*;
use vstd::std_specs::btree::spec_btree_keys_iter;
use vstd::std_specs::cmp::OrdSpec;
use vstd::std_specs::iter::IteratorSpec;

verus! {

/// `a` comes before `b` in recency order: an earlier stamp, or the same stamp
/// and a smaller hash.
pub open spec fn older(a: (u64, u64), b: (u64, u64)) -> bool {
    a.0 < b.0 || (a.0 == b.0 && a.1 < b.1)
}

/// `e` is the oldest entry of `entries`.
pub open spec fn is_oldest(entries: Set<(u64, u64)>, e: (u64, u64)) -> bool {
    &&& entries.contains(e)
    &&& forall|o: (u64, u64)| #[trigger] entries.contains(o) && o != e ==> older(e, o)
}

/// `order` holds every entry of `entries` once, older ones first.
pub open spec fn in_recency_order(entries: Set<(u64, u64)>, order: Seq<(u64, u64)>) -> bool {
    &&& order.to_set() == entries
    &&& forall|i: int, j: int|
        0 <= i < j < order.len() ==> older(#[trigger] order[i], #[trigger] order[j])
}

/// A finite set that is not empty has an oldest entry.
pub proof fn lemma_oldest_exists(entries: Set<(u64, u64)>) -> (e: (u64, u64))
    requires
        entries.finite(),
        entries.len() > 0,
    ensures
        is_oldest(entries, e),
    decreases entries.len(),
{
    let pick = entries.choose();
    if entries.len() == 1 {
        assert forall|o: (u64, u64)| #[trigger] entries.contains(o) && o != pick implies older(
            pick,
            o,
        ) by {
            assert(entries.remove(pick).contains(o));
            assert(entries.remove(pick).len() == 0);
            entries.remove(pick).lemma_len0_is_empty();
        }
        pick
    } else {
        let rest = entries.remove(pick);
        let e = lemma_oldest_exists(rest);
        let best = if older(pick, e) { pick } else { e };
        assert forall|o: (u64, u64)| #[trigger] entries.contains(o) && o != best implies older(
            best,
            o,
        ) by {
            if o != pick {
                assert(rest.contains(o));
            }
        }
        best
    }
}

/// Stamped page hashes, kept in recency order.
#[derive(Debug)]
pub struct RecencyIndex {
    pub(crate) entries: BTreeSet<(u64, u64)>,
}

impl View for RecencyIndex {
    type V = Set<(u64, u64)>;

    closed spec fn view(&self) -> Set<(u64, u64)> {
        self.entries@
    }
}

/// What a walk over the entries of `index` hands out is in recency order.
pub(crate) proof fn lemma_walk_order(index: &RecencyIndex)
    ensures
        in_recency_order(index@, spec_btree_keys_iter(&index.entries).remaining().unref()),
        index@.finite(),
{
    broadcast use vstd::std_specs::btree::group_btree_axioms;

    let refs = spec_btree_keys_iter(&index.entries).remaining();
    let order = spec_btree_keys_iter(&index.entries).remaining().unref();
    assert(vstd::laws_cmp::obeys_cmp::<&(u64, u64)>());
    assert(vstd::std_specs::btree::increasing_seq(refs));
    assert forall|i: int, j: int| 0 <= i < j < order.len() implies older(
        #[trigger] order[i],
        #[trigger] order[j],
    ) by {
        assert(OrdSpec::cmp_spec(&refs[i], &refs[j]) is Less);
        assert(order[i].cmp_spec(&order[j]) is Less);
    }
    vstd::seq_lib::seq_to_set_is_finite(order);
}

impl RecencyIndex {
    pub fn new() -> (index: Self)
        ensures
            index@ == Set::<(u64, u64)>::empty(),
    {
        RecencyIndex { entries: BTreeSet::new() }
    }

    pub fn len(&self) -> (len: usize)
        ensures
            len == self@.len(),
    {
        assert(vstd::laws_cmp::obeys_cmp::<(u64, u64)>());
        self.entries.len()
    }

    pub fn insert(&mut self, stamp: u64, hash: u64)
        ensures
            final(self)@ == old(self)@.insert((stamp, hash)),
    {
        assert(vstd::laws_cmp::obeys_cmp::<(u64, u64)>());
        self.entries.insert((stamp, hash));
    }

    pub fn remove(&mut self, stamp: u64, hash: u64)
        ensures
            final(self)@ == old(self)@.remove((stamp, hash)),
    {
        assert(vstd::laws_cmp::obeys_cmp::<(u64, u64)>());
        self.entries.remove(&(stamp, hash));
    }

    pub fn clear(&mut self)
        ensures
            final(self)@ == Set::<(u64, u64)>::empty(),
    {
        self.entries.clear();
    }

    /// The oldest entry whose hash is not `hash`.
    pub fn first_other_than(&self, hash: u64) -> (found: Option<(u64, u64)>)
        ensures
            match found {
                Some(e) => is_oldest(self@.filter(|o: (u64, u64)| o.1 != hash), e),
                None => forall|o: (u64, u64)| #[trigger] self@.contains(o) ==> o.1 == hash,
            },
    {
        let ghost order = spec_btree_keys_iter(&self.entries).remaining().unref();
        proof {
            lemma_walk_order(self);
        }
        for e in it: self.entries.iter()
            invariant
                it.seq().unref() == order,
                in_recency_order(self@, order),
                forall|i: int| 0 <= i < it.index() ==> (#[trigger] order[i]).1 == hash,
        {
            if e.1 != hash {
                let ghost others = self@.filter(|o: (u64, u64)| o.1 != hash);
                assert(order[it.index()] == *e);
                assert(order.to_set().contains(*e));
                assert forall|o: (u64, u64)| #[trigger] others.contains(o) && o != *e implies older(
                    *e,
                    o,
                ) by {
                    assert(order.to_set().contains(o));
                    let k = choose|k: int| 0 <= k < order.len() && order[k] == o;
                    assert(order[k] == o);
                }
                return Some(*e);
            }
        }
        assert forall|o: (u64, u64)| #[trigger] self@.contains(o) implies o.1 == hash by {
            assert(order.to_set().contains(o));
            let k = choose|k: int| 0 <= k < order.len() && order[k] == o;
            assert(order[k] == o);
        }
        None
    }

    /// The oldest entry.
    pub fn first(&self) -> (found: Option<(u64, u64)>)
        ensures
            match found {
                Some(e) => is_oldest(self@, e),
                None => self@ == Set::<(u64, u64)>::empty(),
            },
    {
        let ghost order = spec_btree_keys_iter(&self.entries).remaining().unref();
        proof {
            lemma_walk_order(self);
        }
        for e in it: self.entries.iter()
            invariant
                it.index() == 0,
                it.seq().unref() == order,
                in_recency_order(self@, order),
        {
            assert(order[0] == *e);
            assert(order.to_set().contains(*e));
            assert forall|o: (u64, u64)| #[trigger] self@.contains(o) && o != *e implies older(
                *e,
                o,
            ) by {
                assert(order.to_set().contains(o));
                let k = choose|k: int| 0 <= k < order.len() && order[k] == o;
                assert(order[k] == o);
            }
            return Some(*e);
        }
        assert(order.to_set() =~= Set::<(u64, u64)>::empty());
        None
    }
}

} // verus!
