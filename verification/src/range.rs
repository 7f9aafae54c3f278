//! The radix trie of the `iprange` crate, seen as the set of IPv4 addresses
//! that its networks cover.
//!
//! Nothing in this module is proved: each contract restates what the trie
//! does to the covered addresses, and the rest of the crate is verified
//! against these statements.

use ipnet::Ipv4Net;
use iprange::IpRange;
use vstd::prelude::*;

verus! {

/// An `iprange::IpRange<Ipv4Net>`, opaque to the verifier.
#[verifier::external_body]
pub struct Ipv4Range {
    inner: IpRange<Ipv4Net>,
}

/// The addresses that lie in some network of the range.
pub uninterp spec fn range_addrs(r: Ipv4Range) -> Set<u32>;

/// The addresses of the network `addr/prefix_len`: those that agree with
/// `addr` on its leading `prefix_len` bits.
pub open spec fn net_addrs(addr: u32, prefix_len: u8) -> Set<u32> {
    Set::new(|a: u32| same_prefix(addr, a, prefix_len))
}

/// Whether `a` and `b` agree on their leading `prefix_len` bits.
pub open spec fn same_prefix(a: u32, b: u32, prefix_len: u8) -> bool {
    a as int / span(prefix_len) == b as int / span(prefix_len)
}

/// The number of addresses in a network with the given prefix length:
/// two to the power of the bits that the prefix leaves free.
pub open spec fn span(prefix_len: u8) -> int {
    vstd::arithmetic::power2::pow2((32 - prefix_len) as nat) as int
}

/// `IpRange::new`: a range without networks covers no address.
#[verifier::external_body]
pub(crate) fn range_new() -> (r: Ipv4Range)
    ensures
        range_addrs(r) == Set::<u32>::empty(),
{
    Ipv4Range { inner: IpRange::new() }
}

/// `IpRange::add` of the network `addr/prefix_len`: the range then covers
/// what it covered before and the addresses of that network. Only the
/// leading `prefix_len` bits of `addr` are read.
#[verifier::external_body]
pub(crate) fn range_add(r: &mut Ipv4Range, addr: u32, prefix_len: u8)
    requires
        prefix_len <= 32,
    ensures
        range_addrs(*final(r)) == range_addrs(*old(r)).union(net_addrs(addr, prefix_len)),
{
    r.inner.add(Ipv4Net::new_assert(addr.into(), prefix_len));
}

/// `IpRange::simplify`: sibling networks are merged into their parent; the
/// covered addresses stay as they are.
#[verifier::external_body]
pub(crate) fn range_simplify(r: &mut Ipv4Range)
    ensures
        range_addrs(*final(r)) == range_addrs(*old(r)),
{
    r.inner.simplify();
}

/// `IpRange::contains`, asked of a single address: true exactly when the
/// address lies in a network of the range.
#[verifier::external_body]
pub(crate) fn range_contains(r: &Ipv4Range, a: u32) -> (b: bool)
    ensures
        b == range_addrs(*r).contains(a),
{
    r.inner.contains(&a)
}

} // verus!
