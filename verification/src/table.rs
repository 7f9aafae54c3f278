//! The region table: the blocks found in a list of lines, held in a trie and
//! asked for single addresses.

use crate::cidr::{ipv4net_parsed, lemma_block_addrs, lemma_block_of_addrs, Cidr};
use crate::range::{range_add, range_addrs, range_contains, range_new, range_simplify, Ipv4Range};
use crate::region::{blocks_region, lemma_blocks_region_push, lemma_region_push, line_addrs, region};
use vstd::prelude::*;

verus! {

/// An immutable set of IPv4 addresses, given as a union of CIDR blocks.
pub struct RegionTable {
    range: Ipv4Range,
}

impl View for RegionTable {
    type V = Set<u32>;

    /// The addresses that belong to the table.
    closed spec fn view(&self) -> Set<u32> {
        range_addrs(self.range)
    }
}

impl RegionTable {
    /// The table of the given blocks: it holds exactly the addresses that
    /// lie in one of them.
    pub fn from_blocks(blocks: &Vec<Cidr>) -> (t: RegionTable)
        ensures
            t@ == blocks_region(blocks@),
    {
        let mut range = range_new();
        let mut i: usize = 0;
        assert(blocks_region(blocks@.take(0)) =~= Set::<u32>::empty());
        while i < blocks.len()
            invariant
                i <= blocks.len(),
                range_addrs(range) == blocks_region(blocks@.take(i as int)),
            decreases blocks.len() - i,
        {
            let block = blocks[i];
            proof {
                use_type_invariant(&block);
                lemma_block_addrs(block);
                lemma_blocks_region_push(blocks@.take(i as int), block);
                assert(blocks@.take(i as int).push(block) =~= blocks@.take(i + 1));
            }
            range_add(&mut range, block.network(), block.prefix_len());
            i += 1;
        }
        assert(blocks@.take(i as int) =~= blocks@);
        range_simplify(&mut range);
        RegionTable { range }
    }

    /// Builds the table from lines that are each expected to hold one block,
    /// written as `a.b.c.d/n`. A line that denotes no block is passed over;
    /// the table holds exactly the addresses of the blocks that were read.
    pub fn build(lines: &Vec<String>) -> (t: RegionTable)
        ensures
            t@ == region(lines.deep_view()),
    {
        let ghost all = lines.deep_view();
        let mut range = range_new();
        let mut i: usize = 0;
        assert(region(all.take(0)) =~= Set::<u32>::empty());
        while i < lines.len()
            invariant
                i <= lines.len(),
                all == lines.deep_view(),
                range_addrs(range) == region(all.take(i as int)),
            decreases lines.len() - i,
        {
            let ghost line = lines[i as int]@;
            proof {
                lemma_region_push(all.take(i as int), line);
                assert(all.take(i as int).push(line) =~= all.take(i + 1));
            }
            match Cidr::parse(lines[i].as_str()) {
                Some(block) => {
                    proof {
                        let (addr, prefix_len) = ipv4net_parsed(line).unwrap();
                        lemma_block_of_addrs(block, addr, prefix_len);
                        lemma_block_addrs(block);
                    }
                    range_add(&mut range, block.network(), block.prefix_len());
                },
                None => {
                    assert(region(all.take(i as int)).union(line_addrs(line)) =~= region(
                        all.take(i as int),
                    ));
                },
            }
            i += 1;
        }
        assert(all.take(i as int) =~= all);
        range_simplify(&mut range);
        RegionTable { range }
    }

    /// Whether the address belongs to the table.
    pub fn contains(&self, addr: u32) -> (b: bool)
        ensures
            b == self@.contains(addr),
    {
        range_contains(&self.range, addr)
    }
}

/// Two tables built from the same lines hold the same addresses: what a
/// table answers depends on the lines alone.
pub proof fn lemma_build_is_repeatable(first: RegionTable, second: RegionTable, lines: Seq<Seq<char>>)
    requires
        first@ == region(lines),
        second@ == region(lines),
    ensures
        forall|a: u32| first@.contains(a) == second@.contains(a),
{
}

} // verus!
