//! Laws of the plain values: component groups, byte sizes and times.

use crate::facts::group_bytes;
use crate::geometry::{
    ComponentMask, BYTES_PER_GIB, DSV4_FULL_BUNDLE_BYTES_PER_PAGE, DSV4_REGULAR_BYTES_PER_PAGE,
    DSV4_TRAILING_BYTES_PER_PAGE,
};
use crate::protocols::{
    hash_values, stored_hashes, ExternalSequenceBlockHash, KvCacheStoreData,
};
use crate::timestamp::Timestamp;
use vstd::prelude::*;

verus! {

/// Law: a union holds the groups of either mask, and takes the bytes of both but
/// for those of common groups.
pub proof fn law_union_of_groups(a: ComponentMask, b: ComponentMask)
    ensures
        a.joined(b).regular == (a.regular || b.regular),
        a.joined(b).trailing == (a.trailing || b.trailing),
        a.joined(b) == b.joined(a),
        a.joined(b).byte_size() + group_bytes(a.regular && b.regular, a.trailing && b.trailing)
            == a.byte_size() + b.byte_size(),
{
}

/// Law: a mask takes the bytes of the groups that it holds.
pub proof fn law_bytes_of_groups(a: ComponentMask)
    ensures
        a.byte_size() == group_bytes(a.regular, a.trailing),
{
}

/// Law: the hashes of a sequence and of a stored event are those of their pages,
/// in order.
pub proof fn law_hashes_of_pages(
    hashes: Seq<ExternalSequenceBlockHash>,
    store: KvCacheStoreData,
    i: int,
)
    ensures
        hash_values(hashes).len() == hashes.len(),
        0 <= i < hashes.len() ==> hash_values(hashes)[i] == hashes[i].0,
        stored_hashes(store).len() == store.blocks@.len(),
        0 <= i < store.blocks@.len() ==> stored_hashes(store)[i] == store.blocks@[i].block_hash.0,
{
}

/// Law: the groups of a page take the bytes of their parts, and capacities count
/// in units of two to the thirtieth.
pub proof fn law_sizes()
    ensures
        DSV4_REGULAR_BYTES_PER_PAGE == group_bytes(true, false),
        DSV4_TRAILING_BYTES_PER_PAGE == group_bytes(false, true),
        DSV4_FULL_BUNDLE_BYTES_PER_PAGE == group_bytes(true, true),
        BYTES_PER_GIB == 1024 * 1024 * 1024,
{
}

/// The pattern of a double that is a number: not all exponent bits are set.
pub open spec fn is_number(bits: u64) -> bool {
    (bits / 0x10_0000_0000_0000) % 0x800 != 0x7FF
}

/// Where a pattern comes on the line of numbers.
pub open spec fn place(bits: u64) -> int {
    if bits < 0x8000_0000_0000_0000 {
        bits as int
    } else {
        0x8000_0000_0000_0000 - bits
    }
}

/// Law: a time is finite exactly if not all exponent bits of its pattern are set.
pub proof fn law_finite_times(t: Timestamp)
    ensures
        t.finite() <==> is_number(t.bits),
{
    let bits = t.bits;
    assert((bits / 0x10_0000_0000_0000) % 0x800 != 0x7FF <==> (if bits >= 0x8000_0000_0000_0000u64 {
        bits - 0x8000_0000_0000_0000u64 < 0x7FF0_0000_0000_0000u64
    } else {
        bits < 0x7FF0_0000_0000_0000u64
    })) by (bit_vector);
}

/// Law: times are ordered as their places, the two zeros are one time, and a
/// change of sign turns the order round.
pub proof fn law_order_of_times(a: Timestamp, b: Timestamp)
    ensures
        a.order() < b.order() <==> place(a.bits) < place(b.bits),
        a.bits == 0 && b.bits == 0x8000_0000_0000_0000 ==> a.order() == b.order(),
        a.bits < 0x8000_0000_0000_0000 && b.bits == a.bits + 0x8000_0000_0000_0000 ==> b.order()
            == -a.order(),
        a.bits < b.bits < 0x8000_0000_0000_0000 ==> a.order() < b.order(),
{
}

} // verus!
