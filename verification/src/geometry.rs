//! Byte geometry of one logical page, and the two component groups it is
//! stored as.

use vstd::prelude::*;

verus! {

pub const BYTES_PER_GIB: u64 = 1_073_741_824;

pub const DSV4_GEOMETRY_ID: &'static str = "dsv4-flash-tp4-attn-cp4-fp32-v1";

pub const DSV4_C4_BYTES_PER_PAGE: u64 = 786_240;
pub const DSV4_C4_INDEXER_BYTES_PER_PAGE: u64 = 177_408;
pub const DSV4_C128_BYTES_PER_PAGE: u64 = 34_560;
pub const DSV4_SWA_BYTES_PER_PAGE: u64 = 6_439_680;
pub const DSV4_C4_STATE_BYTES_PER_PAGE: u64 = 1_376_256;
pub const DSV4_C4_INDEXER_STATE_BYTES_PER_PAGE: u64 = 344_064;

pub const DSV4_REGULAR_BYTES_PER_PAGE: u64 =
    DSV4_C4_BYTES_PER_PAGE + DSV4_C4_INDEXER_BYTES_PER_PAGE + DSV4_C128_BYTES_PER_PAGE;
pub const DSV4_TRAILING_BYTES_PER_PAGE: u64 =
    DSV4_SWA_BYTES_PER_PAGE + DSV4_C4_STATE_BYTES_PER_PAGE + DSV4_C4_INDEXER_STATE_BYTES_PER_PAGE;
pub const DSV4_FULL_BUNDLE_BYTES_PER_PAGE: u64 =
    DSV4_REGULAR_BYTES_PER_PAGE + DSV4_TRAILING_BYTES_PER_PAGE;

/// Which component groups of a logical page are present in one tier.
#[derive(Clone, Copy, Debug, PartialEq, Eq, Structural)]
pub struct ComponentMask {
    pub regular: bool,
    pub trailing: bool,
}

pub open spec fn no_components() -> ComponentMask {
    ComponentMask { regular: false, trailing: false }
}

impl Default for ComponentMask {
    fn default() -> (mask: Self)
        ensures
            mask == no_components(),
    {
        ComponentMask { regular: false, trailing: false }
    }
}

impl ComponentMask {
    /// Bytes that the present groups occupy.
    pub open spec fn byte_size(self) -> nat {
        (if self.regular { DSV4_REGULAR_BYTES_PER_PAGE as nat } else { 0 })
            + (if self.trailing { DSV4_TRAILING_BYTES_PER_PAGE as nat } else { 0 })
    }

    pub open spec fn joined(self, other: Self) -> Self {
        ComponentMask {
            regular: self.regular || other.regular,
            trailing: self.trailing || other.trailing,
        }
    }

    /// Whether every group of `other` is also in `self`.
    pub open spec fn covers(self, other: Self) -> bool {
        (other.regular ==> self.regular) && (other.trailing ==> self.trailing)
    }

    pub fn bytes(self) -> (bytes: u64)
        ensures
            bytes == self.byte_size(),
            bytes <= DSV4_FULL_BUNDLE_BYTES_PER_PAGE,
    {
        let regular: u64 = if self.regular { DSV4_REGULAR_BYTES_PER_PAGE } else { 0 };
        let trailing: u64 = if self.trailing { DSV4_TRAILING_BYTES_PER_PAGE } else { 0 };
        regular + trailing
    }

    pub fn union(self, other: Self) -> (mask: Self)
        ensures
            mask == self.joined(other),
    {
        ComponentMask {
            regular: self.regular || other.regular,
            trailing: self.trailing || other.trailing,
        }
    }
}

} // verus!
