//! Chaining of block hashes into hashes that identify whole prefixes.

use crate::hicache::SglangHiCacheState;
use crate::protocols::{ExternalSequenceBlockHash, LocalBlockHash};
use vstd::prelude::*;

verus! {

/// `hashes` chains `local`: the first block stands for itself, and each later
/// hash is what `next` may give for the hash before it and its own block.
pub open spec fn is_hash_chain<F: Fn(u64, LocalBlockHash) -> u64>(
    next: F,
    local: Seq<LocalBlockHash>,
    hashes: Seq<ExternalSequenceBlockHash>,
) -> bool {
    &&& hashes.len() == local.len()
    &&& local.len() > 0 ==> hashes[0].0 == local[0].0
    &&& forall|i: int|
        0 < i < local.len() ==> call_ensures(
            next,
            (hashes[i - 1].0, #[trigger] local[i]),
            hashes[i].0,
        )
}

/// The chain of `local` under a function `next`.
pub open spec fn hash_chain(
    next: spec_fn(u64, LocalBlockHash) -> u64,
    local: Seq<LocalBlockHash>,
) -> Seq<ExternalSequenceBlockHash>
    decreases local.len(),
{
    if local.len() == 0 {
        Seq::empty()
    } else if local.len() == 1 {
        seq![ExternalSequenceBlockHash(local[0].0)]
    } else {
        let before = hash_chain(next, local.drop_last());
        before.push(ExternalSequenceBlockHash(next(before.last().0, local.last())))
    }
}

impl SglangHiCacheState {
    /// Chains block hashes with `next`, which gives the hash of a prefix from the
    /// hash of the prefix one block shorter and the last block.
    pub fn sequence_hashes<F: Fn(u64, LocalBlockHash) -> u64>(
        local_hashes: &[LocalBlockHash],
        next: F,
    ) -> (hashes: Vec<ExternalSequenceBlockHash>)
        requires
            forall|parent: u64, local: LocalBlockHash| call_requires(next, (parent, local)),
        ensures
            is_hash_chain(next, local_hashes@, hashes@),
    {
        let mut hashes: Vec<ExternalSequenceBlockHash> = Vec::new();
        let mut parent: Option<u64> = None;
        let mut i: usize = 0;
        while i < local_hashes.len()
            invariant
                i <= local_hashes@.len(),
                forall|parent: u64, local: LocalBlockHash| call_requires(next, (parent, local)),
                is_hash_chain(next, local_hashes@.take(i as int), hashes@),
                i == 0 ==> parent is None,
                i > 0 ==> parent == Some(hashes@[i - 1].0),
            decreases local_hashes@.len() - i,
        {
            let local = local_hashes[i];
            let hash = match parent {
                Some(parent_hash) => ExternalSequenceBlockHash(next(parent_hash, local)),
                None => ExternalSequenceBlockHash(local.0),
            };
            let ghost before = hashes@;
            hashes.push(hash);
            parent = Some(hash.0);
            proof {
                let shorter = local_hashes@.take(i as int);
                let longer = local_hashes@.take(i + 1);
                assert forall|j: int| 0 < j < longer.len() implies call_ensures(
                    next,
                    (hashes@[j - 1].0, #[trigger] longer[j]),
                    hashes@[j].0,
                ) by {
                    if j < i {
                        assert(shorter[j] == longer[j]);
                        assert(hashes@[j - 1] == before[j - 1] && hashes@[j] == before[j]);
                    }
                }
                if i > 0 {
                    assert(shorter[0] == longer[0]);
                }
            }
            i = i + 1;
        }
        assert(local_hashes@.take(i as int) =~= local_hashes@);
        hashes
    }
}

/// Law: where `next` is a function, the chain is determined by the blocks.
pub proof fn law_chain_is_determined<F: Fn(u64, LocalBlockHash) -> u64>(
    exec_next: F,
    next: spec_fn(u64, LocalBlockHash) -> u64,
    local: Seq<LocalBlockHash>,
    hashes: Seq<ExternalSequenceBlockHash>,
)
    requires
        forall|p: u64, l: LocalBlockHash, r: u64| #[trigger]
            call_ensures(exec_next, (p, l), r) ==> r == next(p, l),
        is_hash_chain(exec_next, local, hashes),
    ensures
        hashes == hash_chain(next, local),
    decreases local.len(),
{
    if local.len() > 1 {
        let shorter = local.drop_last();
        let before = hashes.drop_last();
        assert forall|i: int| 0 < i < shorter.len() implies call_ensures(
            exec_next,
            (before[i - 1].0, #[trigger] shorter[i]),
            before[i].0,
        ) by {
            assert(local[i] == shorter[i]);
        }
        law_chain_is_determined(exec_next, next, shorter, before);
        let last = local.len() - 1;
        assert(call_ensures(exec_next, (hashes[last - 1].0, local[last]), hashes[last].0));
        assert(hashes =~= before.push(hashes[last]));
    } else {
        assert(hashes =~= hash_chain(next, local));
    }
}

/// Law: there is one hash for each block; the first is that of its block, and
/// each later one is what `next` gives for the hash before it and its block.
pub proof fn law_chain_links<F: Fn(u64, LocalBlockHash) -> u64>(
    next: F,
    local: Seq<LocalBlockHash>,
    hashes: Seq<ExternalSequenceBlockHash>,
    i: int,
)
    requires
        is_hash_chain(next, local, hashes),
        0 <= i < local.len(),
    ensures
        hashes.len() == local.len(),
        i == 0 ==> hashes[i].0 == local[i].0,
        i > 0 ==> call_ensures(next, (hashes[i - 1].0, local[i]), hashes[i].0),
{
    assert(local[i] == local[i]);
}

/// Law: under a function the first hash is that of its block, and each later one
/// follows from the hash before it and its block.
pub proof fn law_hash_chain_links(
    next: spec_fn(u64, LocalBlockHash) -> u64,
    local: Seq<LocalBlockHash>,
    i: int,
)
    requires
        0 <= i < local.len(),
    ensures
        hash_chain(next, local).len() == local.len(),
        i == 0 ==> hash_chain(next, local)[i].0 == local[i].0,
        i > 0 ==> hash_chain(next, local)[i].0 == next(
            hash_chain(next, local)[i - 1].0,
            local[i],
        ),
    decreases local.len(),
{
    if local.len() > 1 {
        let shorter = local.drop_last();
        law_hash_chain_links(next, shorter, if i < shorter.len() { i } else { 0 });
    }
}

/// Law: the chain of a prefix is a prefix of the chain, so that requests which
/// share their first blocks share the hashes of those blocks.
pub proof fn law_chain_of_prefix(
    next: spec_fn(u64, LocalBlockHash) -> u64,
    local: Seq<LocalBlockHash>,
    blocks: int,
)
    requires
        0 <= blocks <= local.len(),
    ensures
        hash_chain(next, local).len() == local.len(),
        hash_chain(next, local.take(blocks)) == hash_chain(next, local).take(blocks),
    decreases local.len(),
{
    if local.len() <= 1 {
        if blocks == local.len() {
            assert(local.take(blocks) =~= local);
        } else {
            assert(local.take(blocks) =~= Seq::<LocalBlockHash>::empty());
        }
        assert(hash_chain(next, local.take(blocks)) =~= hash_chain(next, local).take(blocks));
    } else {
        let shorter = local.drop_last();
        law_chain_of_prefix(next, shorter, if blocks < local.len() { blocks } else { 0 });
        if blocks < local.len() {
            assert(shorter.take(blocks) =~= local.take(blocks));
        } else {
            assert(local.take(blocks) =~= local);
        }
        assert(hash_chain(next, local.take(blocks)) =~= hash_chain(next, local).take(blocks));
    }
}

} // verus!
