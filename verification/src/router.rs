//! The router: a region table and an upstream proxy, and the choice between
//! a direct connection and a relayed one.

use crate::table::RegionTable;
use vstd::prelude::*;

verus! {

/// A socket address: an IP address and a port, with the flow information and
/// the scope of an IPv6 address. An IPv4 address is held with its first octet
/// in the most significant byte, an IPv6 address with its first segment in
/// the most significant bits.
#[derive(Clone, Copy, Debug, PartialEq, Eq, Structural)]
pub enum Endpoint {
    V4 { ip: u32, port: u16 },
    V6 { ip6: u128, port: u16, flowinfo: u32, scope_id: u32 },
}

/// How a connection is forwarded.
#[derive(Clone, Copy, Debug, PartialEq, Eq, Structural)]
pub enum RoutingDirective {
    /// Connect to the destination itself.
    Direct(Endpoint),
    /// Connect to the upstream proxy, the first address, and have it reach
    /// the destination, the second.
    Relay(Endpoint, Endpoint),
}

/// The directive for a destination, given the region and the upstream proxy:
/// an IPv4 destination inside the region is reached directly, one outside
/// it through the proxy, and an IPv6 destination always directly.
pub open spec fn directive(region: Set<u32>, upstream: Endpoint, to: Endpoint) -> RoutingDirective {
    match to {
        Endpoint::V4 { ip, .. } => if region.contains(ip) {
            RoutingDirective::Direct(to)
        } else {
            RoutingDirective::Relay(upstream, to)
        },
        Endpoint::V6 { .. } => RoutingDirective::Direct(to),
    }
}

/// Routes by region: destinations inside the region table directly, the
/// others through a SOCKS5 proxy.
pub struct ChnRouter {
    chnroutes: RegionTable,
    socks5: Endpoint,
}

impl ChnRouter {
    /// The addresses that are reached directly.
    pub closed spec fn region(&self) -> Set<u32> {
        self.chnroutes@
    }

    /// The proxy that relays the other connections.
    pub closed spec fn upstream(&self) -> Endpoint {
        self.socks5
    }

    /// A router over the given table and proxy.
    pub fn new(chnroutes: RegionTable, socks5: Endpoint) -> (router: ChnRouter)
        ensures
            router.region() == chnroutes@,
            router.upstream() == socks5,
    {
        ChnRouter { chnroutes, socks5 }
    }

    /// A router whose table is built from the given lines.
    pub fn from_lines(lines: &Vec<String>, socks5: Endpoint) -> (router: ChnRouter)
        ensures
            router.region() == crate::region::region(lines.deep_view()),
            router.upstream() == socks5,
    {
        ChnRouter { chnroutes: RegionTable::build(lines), socks5 }
    }

    /// The proxy that relays the connections that are not made directly.
    pub fn socks5(&self) -> (e: Endpoint)
        ensures
            e == self.upstream(),
    {
        self.socks5
    }

    /// Decides how a connection to `to` is forwarded. The
    /// source has no part in the decision.
    pub fn route(&self, _from: Endpoint, to: Endpoint) -> (d: RoutingDirective)
        ensures
            d == directive(self.region(), self.upstream(), to),
    {
        match to {
            Endpoint::V4 { ip, .. } => {
                if self.chnroutes.contains(ip) {
                    RoutingDirective::Direct(to)
                } else {
                    RoutingDirective::Relay(self.socks5, to)
                }
            },
            Endpoint::V6 { .. } => RoutingDirective::Direct(to),
        }
    }
}

/// An IPv6 destination is reached directly, whatever the region and the
/// proxy are.
pub proof fn lemma_ipv6_is_direct(region: Set<u32>, upstream: Endpoint, to: Endpoint)
    requires
        to is V6,
    ensures
        directive(region, upstream, to) == RoutingDirective::Direct(to),
{
}

/// Every directive names the destination it was asked for, and a relayed one
/// names the configured proxy.
pub proof fn lemma_directive_keeps_destination(region: Set<u32>, upstream: Endpoint, to: Endpoint)
    ensures
        match directive(region, upstream, to) {
            RoutingDirective::Direct(dest) => dest == to,
            RoutingDirective::Relay(proxy, dest) => proxy == upstream && dest == to,
        },
{
}

} // verus!
