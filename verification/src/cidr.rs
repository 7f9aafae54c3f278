//! IPv4 CIDR blocks: a network address and a prefix length, standing for a
//! contiguous range of addresses.

use crate::range::{net_addrs, same_prefix, span};
use ipnet::Ipv4Net;
use vstd::arithmetic::div_mod::{
    lemma_fundamental_div_mod, lemma_fundamental_div_mod_converse, lemma_mod_bound, lemma_small_mod,
};
use vstd::arithmetic::power2::{
    lemma2_to64, lemma2_to64_rest, lemma_pow2_pos, lemma_pow2_strictly_increases,
};
use vstd::bits::{lemma_u32_shl_is_mul, lemma_u32_shr_is_div};
use vstd::prelude::*;

verus! {

/// The address `a.b.c.d` as a number, with `a` in the most significant byte.
pub open spec fn ipv4_value(a: u8, b: u8, c: u8, d: u8) -> int {
    a * 0x100_0000 + b * 0x1_0000 + c * 0x100 + d
}

/// The address `a.b.c.d` as a number, with `a` in the most significant byte.
pub fn ipv4(a: u8, b: u8, c: u8, d: u8) -> (addr: u32)
    ensures
        addr == ipv4_value(a, b, c, d),
{
    let hi: u32 = a as u32 * 0x100_0000 + b as u32 * 0x1_0000;
    hi + c as u32 * 0x100 + d as u32
}

/// The first address of the network that `addr` lies in under the given
/// prefix length: `addr` with the bits beyond the prefix cleared.
pub open spec fn network_of(addr: u32, prefix_len: u8) -> int {
    addr as int - addr as int % span(prefix_len)
}

/// `span` of a prefix length up to 32 is a power of two between 1 and 2^32.
pub proof fn lemma_span_bounds(prefix_len: u8)
    requires
        prefix_len <= 32,
    ensures
        1 <= span(prefix_len) <= 0x1_0000_0000,
        prefix_len == 0 ==> span(prefix_len) == 0x1_0000_0000,
        prefix_len == 32 ==> span(prefix_len) == 1,
{
    lemma2_to64();
    lemma2_to64_rest();
    lemma_pow2_pos((32 - prefix_len) as nat);
    if prefix_len > 0 {
        lemma_pow2_strictly_increases((32 - prefix_len) as nat, 32);
    }
}

/// The network address is a multiple of the span, not above `addr`, and less
/// than one span below it.
pub proof fn lemma_network_of(addr: u32, prefix_len: u8)
    requires
        prefix_len <= 32,
    ensures
        0 <= network_of(addr, prefix_len) <= addr,
        addr < network_of(addr, prefix_len) + span(prefix_len),
        network_of(addr, prefix_len) == (addr as int / span(prefix_len)) * span(prefix_len),
        network_of(addr, prefix_len) % span(prefix_len) == 0,
{
    let s = span(prefix_len);
    lemma_span_bounds(prefix_len);
    lemma_fundamental_div_mod(addr as int, s);
    lemma_mod_bound(addr as int, s);
    let q = addr as int / s;
    assert(s * q == q * s) by (nonlinear_arith);
    assert(0 <= q) by (nonlinear_arith)
        requires
            addr as int == q * s + addr as int % s,
            0 <= addr as int % s < s,
            0 <= addr,
            s >= 1,
    ;
    lemma_fundamental_div_mod_converse(q * s, s, q, 0);
}

/// Two addresses share their leading `prefix_len` bits exactly when the
/// second lies in the range of one span that starts at the network address
/// of the first.
pub proof fn lemma_same_prefix_is_range(addr: u32, a: u32, prefix_len: u8)
    requires
        prefix_len <= 32,
    ensures
        same_prefix(addr, a, prefix_len) <==> network_of(addr, prefix_len) <= a < network_of(
            addr,
            prefix_len,
        ) + span(prefix_len),
{
    let s = span(prefix_len);
    lemma_span_bounds(prefix_len);
    lemma_network_of(addr, prefix_len);
    lemma_network_of(a, prefix_len);
    let q = addr as int / s;
    if network_of(addr, prefix_len) <= a < network_of(addr, prefix_len) + s {
        lemma_fundamental_div_mod_converse(a as int, s, q, a as int - q * s);
    }
}

/// What the `ipnet` crate reads a piece of text as: the address and the
/// prefix length of the IPv4 network that the text denotes, or `None` where
/// the text denotes no such network.
pub uninterp spec fn ipv4net_parsed(text: Seq<char>) -> Option<(u32, u8)>;

/// `ipnet`'s `FromStr` for `Ipv4Net`, with the network handed back as its
/// address (the first octet in the most significant byte) and its prefix
/// length. The text alone decides the result, and a network that comes back
/// has a prefix of at most 32 bits.
#[verifier::external_body]
fn parse_ipv4net(text: &str) -> (r: Option<(u32, u8)>)
    ensures
        r == ipv4net_parsed(text@),
        r matches Some((_, prefix_len)) ==> prefix_len <= 32,
{
    match text.parse::<Ipv4Net>() {
        Ok(net) => Some((u32::from(net.addr()), net.prefix_len())),
        Err(_) => None,
    }
}

/// An IPv4 network: the address it starts at and the length of its prefix.
///
/// The prefix length is at most 32 and the bits of the address beyond the
/// prefix are zero.
#[derive(Clone, Copy, Debug)]
pub struct Cidr {
    addr: u32,
    prefix_len: u8,
}

/// The netmask of a prefix length: the leading `prefix_len` bits set.
fn netmask(prefix_len: u8) -> (m: u32)
    requires
        prefix_len <= 32,
    ensures
        forall|a: u32| #[trigger] (a & m) == network_of(a, prefix_len),
{
    if prefix_len == 0 {
        proof {
            lemma_span_bounds(prefix_len);
            assert forall|a: u32| #[trigger] (a & 0u32) == network_of(a, prefix_len) by {
                assert(a & 0u32 == 0u32) by (bit_vector);
                lemma_small_mod(a as nat, 0x1_0000_0000nat);
            }
        }
        0
    } else {
        let k: u32 = 32 - prefix_len as u32;
        let m: u32 = u32::MAX << k;
        proof {
            assert forall|a: u32| #[trigger] (a & m) == network_of(a, prefix_len) by {
                assert(a & (0xffff_ffffu32 << k) == (a >> k) << k) by (bit_vector)
                    requires
                        k < 32,
                ;
                lemma_network_of(a, prefix_len);
                lemma_u32_shr_is_div(a, k);
                lemma_u32_shl_is_mul(a >> k, k);
            }
        }
        m
    }
}

impl Cidr {
    /// The invariant of the type: a prefix of at most 32 bits, and nothing
    /// set in the address beyond it.
    #[verifier::type_invariant]
    pub closed spec fn wf(&self) -> bool {
        &&& self.prefix_len <= 32
        &&& self.addr as int % span(self.prefix_len) == 0
    }

    /// The network address.
    pub closed spec fn spec_network(&self) -> u32 {
        self.addr
    }

    /// The prefix length.
    pub closed spec fn spec_prefix_len(&self) -> u8 {
        self.prefix_len
    }

    /// The first address of the block.
    pub open spec fn first(&self) -> int {
        self.spec_network() as int
    }

    /// The last address of the block.
    pub open spec fn last(&self) -> int {
        self.spec_network() + span(self.spec_prefix_len()) - 1
    }

    /// The addresses of the block: the range from `first` to `last`.
    pub open spec fn addrs(&self) -> Set<u32> {
        Set::new(|a: u32| self.first() <= a <= self.last())
    }

    /// The block that `new` makes of an address and a prefix length, where
    /// it makes one.
    pub open spec fn is_block_of(&self, addr: u32, prefix_len: u8) -> bool {
        &&& self.wf()
        &&& self.spec_prefix_len() == prefix_len
        &&& self.spec_network() == network_of(addr, prefix_len)
    }

    /// The block of `addr` under a prefix of `prefix_len` bits. A prefix
    /// longer than 32 bits gives no block; bits of `addr` beyond the prefix
    /// are cleared.
    pub fn new(addr: u32, prefix_len: u8) -> (r: Option<Cidr>)
        ensures
            r.is_some() <==> prefix_len <= 32,
            r matches Some(c) ==> c.is_block_of(addr, prefix_len),
    {
        if prefix_len > 32 {
            None
        } else {
            let m = netmask(prefix_len);
            proof {
                lemma_network_of(addr, prefix_len);
            }
            Some(Cidr { addr: addr & m, prefix_len })
        }
    }

    /// Whether the block is what the text denotes.
    pub open spec fn is_parse_of(&self, text: Seq<char>) -> bool {
        match ipv4net_parsed(text) {
            Some((addr, prefix_len)) => self.is_block_of(addr, prefix_len),
            None => false,
        }
    }

    /// Reads a block written as `a.b.c.d/n`. Text that denotes no network
    /// gives no block; an address with bits set beyond the prefix is
    /// accepted and those bits are cleared.
    pub fn parse(text: &str) -> (r: Option<Cidr>)
        ensures
            r.is_some() <==> ipv4net_parsed(text@).is_some(),
            r matches Some(c) ==> c.is_parse_of(text@),
    {
        match parse_ipv4net(text) {
            Some((addr, prefix_len)) => Cidr::new(addr, prefix_len),
            None => None,
        }
    }

    /// The network address.
    #[verifier::when_used_as_spec(spec_network)]
    pub fn network(&self) -> (r: u32)
        ensures
            r == self.spec_network(),
    {
        self.addr
    }

    /// The prefix length.
    #[verifier::when_used_as_spec(spec_prefix_len)]
    pub fn prefix_len(&self) -> (r: u8)
        ensures
            r == self.spec_prefix_len(),
            r <= 32,
    {
        proof {
            use_type_invariant(self);
        }
        self.prefix_len
    }

    /// Whether the address lies in the block.
    pub fn contains(&self, a: u32) -> (b: bool)
        ensures
            b == self.addrs().contains(a),
    {
        proof {
            use_type_invariant(self);
            lemma_network_of(a, self.prefix_len);
            lemma_span_bounds(self.prefix_len);
            let s = span(self.prefix_len);
            lemma_fundamental_div_mod(self.addr as int, s);
            assert(s * (self.addr as int / s) == (self.addr as int / s) * s) by (nonlinear_arith);
            if self.addr <= a < self.addr + s {
                lemma_fundamental_div_mod_converse(
                    a as int,
                    s,
                    self.addr as int / s,
                    a as int - self.addr as int,
                );
            }
        }
        let m = netmask(self.prefix_len);
        (a & m) == self.addr
    }
}

/// The addresses of the network `addr/prefix_len`: the range of one span that
/// starts at its network address.
pub open spec fn block_addrs(addr: u32, prefix_len: u8) -> Set<u32> {
    Set::new(
        |a: u32|
            network_of(addr, prefix_len) <= a < network_of(addr, prefix_len) + span(prefix_len),
    )
}

/// The range of a network holds the addresses that share its prefix.
pub proof fn lemma_block_addrs_share_prefix(addr: u32, prefix_len: u8)
    requires
        prefix_len <= 32,
    ensures
        block_addrs(addr, prefix_len) == net_addrs(addr, prefix_len),
{
    assert forall|a: u32|
        block_addrs(addr, prefix_len).contains(a) == net_addrs(addr, prefix_len).contains(a) by {
        lemma_same_prefix_is_range(addr, a, prefix_len);
    }
    assert(block_addrs(addr, prefix_len) =~= net_addrs(addr, prefix_len));
}

/// A well-formed block has a prefix of at most 32 bits, is the block of its
/// own network address, and holds the addresses that share its prefix.
pub proof fn lemma_block_addrs(c: Cidr)
    requires
        c.wf(),
    ensures
        c.spec_prefix_len() <= 32,
        c.is_block_of(c.spec_network(), c.spec_prefix_len()),
        c.addrs() == block_addrs(c.spec_network(), c.spec_prefix_len()),
        c.addrs() == net_addrs(c.spec_network(), c.spec_prefix_len()),
        c.addrs().contains(c.spec_network()),
{
    lemma_span_bounds(c.spec_prefix_len());
    lemma_block_addrs_share_prefix(c.spec_network(), c.spec_prefix_len());
    assert(c.addrs() =~= block_addrs(c.spec_network(), c.spec_prefix_len()));
}

/// The block made of an address and a prefix length holds the addresses of
/// that network, the address itself among them.
pub proof fn lemma_block_of_addrs(c: Cidr, addr: u32, prefix_len: u8)
    requires
        c.is_block_of(addr, prefix_len),
    ensures
        prefix_len <= 32,
        c.addrs() == block_addrs(addr, prefix_len),
        c.addrs().contains(addr),
{
    lemma_block_addrs(c);
    lemma_network_of(addr, prefix_len);
    assert(c.addrs() =~= block_addrs(addr, prefix_len));
}

} // verus!
