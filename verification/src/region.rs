//! The region that a list of CIDR blocks describes, as a set of addresses,
//! and what holds of it however the list is arranged.

use crate::cidr::{block_addrs, ipv4net_parsed, lemma_block_of_addrs, Cidr};
use vstd::prelude::*;

verus! {

/// The addresses that one line adds to a table: those of the block it
/// denotes, and none where it denotes no block.
pub open spec fn line_addrs(line: Seq<char>) -> Set<u32> {
    match ipv4net_parsed(line) {
        Some((addr, prefix_len)) => block_addrs(addr, prefix_len),
        None => Set::empty(),
    }
}

/// The region that a list of lines describes: an address belongs to it
/// exactly when the block of some line holds it.
pub open spec fn region(lines: Seq<Seq<char>>) -> Set<u32> {
    Set::new(|a: u32| exists|i: int| 0 <= i < lines.len() && #[trigger] line_addrs(lines[i]).contains(a))
}

/// The union of a list of blocks.
pub open spec fn blocks_region(blocks: Seq<Cidr>) -> Set<u32> {
    Set::new(
        |a: u32| exists|i: int| 0 <= i < blocks.len() && (#[trigger] blocks[i]).addrs().contains(a),
    )
}

/// One more line adds its addresses to the region and takes none away.
pub proof fn lemma_region_push(lines: Seq<Seq<char>>, line: Seq<char>)
    ensures
        region(lines.push(line)) == region(lines).union(line_addrs(line)),
{
    let more = lines.push(line);
    assert forall|a: u32| region(more).contains(a) == region(lines).union(line_addrs(line)).contains(
        a,
    ) by {
        if region(more).contains(a) {
            let i = choose|i: int| 0 <= i < more.len() && #[trigger] line_addrs(more[i]).contains(a);
            if i < lines.len() {
                assert(line_addrs(lines[i]).contains(a));
            }
        }
        if region(lines).contains(a) {
            let i = choose|i: int| 0 <= i < lines.len() && #[trigger] line_addrs(lines[i]).contains(a);
            assert(line_addrs(more[i]).contains(a));
        }
        if line_addrs(line).contains(a) {
            assert(line_addrs(more[lines.len() as int]).contains(a));
        }
    }
    assert(region(more) =~= region(lines).union(line_addrs(line)));
}

/// One more block adds its addresses to the union and takes none away.
pub proof fn lemma_blocks_region_push(blocks: Seq<Cidr>, block: Cidr)
    ensures
        blocks_region(blocks.push(block)) == blocks_region(blocks).union(block.addrs()),
{
    let more = blocks.push(block);
    assert forall|a: u32| blocks_region(more).contains(a) == blocks_region(blocks).union(
        block.addrs(),
    ).contains(a) by {
        if blocks_region(more).contains(a) {
            let i = choose|i: int| 0 <= i < more.len() && (#[trigger] more[i]).addrs().contains(a);
            if i < blocks.len() {
                assert(blocks[i].addrs().contains(a));
            }
        }
        if blocks_region(blocks).contains(a) {
            let i = choose|i: int|
                0 <= i < blocks.len() && (#[trigger] blocks[i]).addrs().contains(a);
            assert(more[i].addrs().contains(a));
        }
        if block.addrs().contains(a) {
            assert(more[blocks.len() as int].addrs().contains(a));
        }
    }
    assert(blocks_region(more) =~= blocks_region(blocks).union(block.addrs()));
}

/// An address in the block of a line belongs to the region of every list
/// that holds the line.
pub proof fn lemma_region_holds_block(lines: Seq<Seq<char>>, i: int, block: Cidr, a: u32)
    requires
        0 <= i < lines.len(),
        block.is_parse_of(lines[i]),
        block.addrs().contains(a),
    ensures
        region(lines).contains(a),
{
    let (addr, prefix_len) = ipv4net_parsed(lines[i]).unwrap();
    lemma_block_of_addrs(block, addr, prefix_len);
    assert(line_addrs(lines[i]).contains(a));
}

/// An address that the block of no line holds does not belong to the region.
pub proof fn lemma_region_holds_nothing_else(lines: Seq<Seq<char>>, a: u32)
    requires
        forall|i: int| 0 <= i < lines.len() ==> !(#[trigger] line_addrs(lines[i])).contains(a),
    ensures
        !region(lines).contains(a),
{
}

/// No line, no address: the region of an empty list is empty, and so is
/// that of a list in which no line denotes a block.
pub proof fn lemma_region_of_unread_lines(lines: Seq<Seq<char>>)
    requires
        forall|i: int| 0 <= i < lines.len() ==> (#[trigger] ipv4net_parsed(lines[i])).is_none(),
    ensures
        region(lines) == Set::<u32>::empty(),
{
    assert forall|a: u32| !region(lines).contains(a) by {
        if region(lines).contains(a) {
            let i = choose|i: int| 0 <= i < lines.len() && #[trigger] line_addrs(lines[i]).contains(a);
            assert(ipv4net_parsed(lines[i]).is_none());
        }
    }
    assert(region(lines) =~= Set::<u32>::empty());
}

/// The region of two lists, one after the other, is the union of their
/// regions.
pub proof fn lemma_region_concat(front: Seq<Seq<char>>, back: Seq<Seq<char>>)
    ensures
        region(front + back) == region(front).union(region(back)),
{
    let all = front + back;
    assert forall|a: u32| region(all).contains(a) == region(front).union(region(back)).contains(
        a,
    ) by {
        if region(all).contains(a) {
            let i = choose|i: int| 0 <= i < all.len() && #[trigger] line_addrs(all[i]).contains(a);
            if i < front.len() {
                assert(line_addrs(front[i]).contains(a));
            } else {
                assert(line_addrs(back[i - front.len()]).contains(a));
            }
        }
        if region(front).contains(a) {
            let i = choose|i: int| 0 <= i < front.len() && #[trigger] line_addrs(front[i]).contains(a);
            assert(line_addrs(all[i]).contains(a));
        }
        if region(back).contains(a) {
            let i = choose|i: int| 0 <= i < back.len() && #[trigger] line_addrs(back[i]).contains(a);
            assert(line_addrs(all[front.len() + i]).contains(a));
        }
    }
    assert(region(all) =~= region(front).union(region(back)));
}

/// Two lists that hold the same lines, each as often as the other, in
/// whatever order, describe the same region.
pub proof fn lemma_region_ignores_order(lines: Seq<Seq<char>>, shuffled: Seq<Seq<char>>)
    requires
        lines.to_multiset() == shuffled.to_multiset(),
    ensures
        region(lines) == region(shuffled),
{
    lemma_region_of_same_lines(lines, shuffled);
    lemma_region_of_same_lines(shuffled, lines);
    assert(region(lines) =~= region(shuffled));
}

/// A list whose lines all occur in another describes a part of the
/// other's region.
pub proof fn lemma_region_of_same_lines(lines: Seq<Seq<char>>, others: Seq<Seq<char>>)
    requires
        forall|line: Seq<char>| lines.to_multiset().count(line) > 0 ==> others.to_multiset().count(line) > 0,
    ensures
        region(lines).subset_of(region(others)),
{
    lines.to_multiset_ensures();
    others.to_multiset_ensures();
    assert forall|a: u32| region(lines).contains(a) implies region(others).contains(a) by {
        let i = choose|i: int| 0 <= i < lines.len() && #[trigger] line_addrs(lines[i]).contains(a);
        assert(lines.contains(lines[i]));
        assert(lines.to_multiset().count(lines[i]) > 0);
        assert(others.to_multiset().count(lines[i]) > 0);
        assert(others.contains(lines[i]));
        let j = choose|j: int| 0 <= j < others.len() && others[j] == lines[i];
        assert(line_addrs(others[j]).contains(a));
    }
}

/// A line that denotes no block, put anywhere into a list, leaves the
/// region as it was.
pub proof fn lemma_region_ignores_unread_line(lines: Seq<Seq<char>>, at: int, unread: Seq<char>)
    requires
        0 <= at <= lines.len(),
        ipv4net_parsed(unread).is_none(),
    ensures
        region(lines.insert(at, unread)) == region(lines),
{
    let more = lines.insert(at, unread);
    assert forall|a: u32| region(more).contains(a) == region(lines).contains(a) by {
        if region(more).contains(a) {
            let i = choose|i: int| 0 <= i < more.len() && #[trigger] line_addrs(more[i]).contains(a);
            if i < at {
                assert(line_addrs(lines[i]).contains(a));
            } else if i > at {
                assert(line_addrs(lines[i - 1]).contains(a));
            }
        }
        if region(lines).contains(a) {
            let i = choose|i: int| 0 <= i < lines.len() && #[trigger] line_addrs(lines[i]).contains(a);
            if i < at {
                assert(line_addrs(more[i]).contains(a));
            } else {
                assert(line_addrs(more[i + 1]).contains(a));
            }
        }
    }
    assert(region(more) =~= region(lines));
}

/// The lines that denote a block describe, alone, the region of the whole
/// list.
pub proof fn lemma_region_of_read_lines(lines: Seq<Seq<char>>)
    ensures
        region(lines.filter(|line: Seq<char>| ipv4net_parsed(line).is_some())) == region(lines),
{
    let read = |line: Seq<char>| ipv4net_parsed(line).is_some();
    let kept = lines.filter(read);
    assert forall|a: u32| region(kept).contains(a) == region(lines).contains(a) by {
        if region(kept).contains(a) {
            let i = choose|i: int| 0 <= i < kept.len() && #[trigger] line_addrs(kept[i]).contains(a);
            assert(kept.contains(kept[i]));
            lines.lemma_filter_contains_rev(read, kept[i]);
            let j = choose|j: int| 0 <= j < lines.len() && lines[j] == kept[i];
            assert(line_addrs(lines[j]).contains(a));
        }
        if region(lines).contains(a) {
            let i = choose|i: int| 0 <= i < lines.len() && #[trigger] line_addrs(lines[i]).contains(a);
            assert(read(lines[i]));
            lines.lemma_filter_contains(read, i);
            let j = choose|j: int| 0 <= j < kept.len() && kept[j] == lines[i];
            assert(line_addrs(kept[j]).contains(a));
        }
    }
    assert(region(kept) =~= region(lines));
}

/// Every address of every block of a list belongs to the union, whether
/// the blocks overlap or not.
pub proof fn lemma_blocks_region_holds_block(blocks: Seq<Cidr>, i: int, a: u32)
    requires
        0 <= i < blocks.len(),
        blocks[i].addrs().contains(a),
    ensures
        blocks_region(blocks).contains(a),
{
}

/// Two blocks, overlapping or not, make the union of their ranges, in
/// either order.
pub proof fn lemma_blocks_region_of_two(one: Cidr, other: Cidr)
    ensures
        blocks_region(seq![one, other]) == one.addrs().union(other.addrs()),
        blocks_region(seq![other, one]) == one.addrs().union(other.addrs()),
{
    lemma_blocks_region_push(Seq::empty(), one);
    lemma_blocks_region_push(seq![one], other);
    lemma_blocks_region_push(Seq::empty(), other);
    lemma_blocks_region_push(seq![other], one);
    assert(Seq::<Cidr>::empty().push(one) =~= seq![one]);
    assert(seq![one].push(other) =~= seq![one, other]);
    assert(Seq::<Cidr>::empty().push(other) =~= seq![other]);
    assert(seq![other].push(one) =~= seq![other, one]);
    assert(blocks_region(Seq::<Cidr>::empty()) =~= Set::<u32>::empty());
    assert(blocks_region(seq![one, other]) =~= one.addrs().union(other.addrs()));
    assert(blocks_region(seq![other, one]) =~= one.addrs().union(other.addrs()));
}

} // verus!
