use vstd::prelude::*;

verus! {

/// An IP address, as the integer its octets spell in network order.
#[derive(Clone, Copy, Debug, PartialEq, Eq, Structural, Hash)]
pub enum IpAddress {
    V4(u32),
    V6(u128),
}

} // verus!
