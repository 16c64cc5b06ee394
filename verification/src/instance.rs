use vstd::prelude::*;
use crate::protocol_stack::line::LineDelay;
use crate::protocol_stack::node::NodeAddress;
use crate::mock_work::MockWorkEntry;

verus! {

/// The address of the `n`th node of a random network: 255 nodes to each
/// high part, both parts counted from `1`.
pub open spec fn is_node_address_of(a: NodeAddress, n: u32) -> bool {
    a.hi() == n / 255 + 1 && a.lo() == n % 255 + 1
}

pub fn node_address_of(n: u32) -> (r: NodeAddress)
    ensures
        is_node_address_of(r, n),
{
    NodeAddress::new(n / 255 + 1, n % 255 + 1)
}

/// The addresses of the nodes of a random network of `num_nodes` nodes.
pub fn node_addresses(num_nodes: u32) -> (r: Vec<NodeAddress>)
    ensures
        r@.len() == num_nodes,
        forall|i: int| 0 <= i < num_nodes ==> is_node_address_of(#[trigger] r@[i], i as u32),
{
    let mut r: Vec<NodeAddress> = Vec::new();
    let mut n: u32 = 0;
    while n < num_nodes
        invariant
            n <= num_nodes,
            r@.len() == n,
            forall|i: int| 0 <= i < n ==> is_node_address_of(#[trigger] r@[i], i as u32),
        decreases num_nodes - n,
    {
        r.push(node_address_of(n));
        n = n + 1;
    }
    r
}

/// The two ends of a random line, picked from `addresses` by two random
/// indices: the first end is taken out of the list by swapping the last
/// address into its place, and the second is picked from what is left.
pub fn pick_line_ends(addresses: &Vec<NodeAddress>, i1: usize, i2: usize) -> (r: (NodeAddress, NodeAddress))
    requires
        i1 < addresses@.len(),
        i2 + 1 < addresses@.len(),
    ensures
        r.0 == addresses@[i1 as int],
        r.1 == addresses@.update(i1 as int, addresses@.last()).drop_last()[i2 as int],
{
    let mut once: Vec<NodeAddress> = addresses.clone();
    proof {
        assert(once@ =~= addresses@);
    }
    let n1 = once.swap_remove(i1);
    let n2 = once.swap_remove(i2);
    (n1, n2)
}

/// A random line: its ends picked by the two indices, with a delay of
/// `delay_millis` milliseconds.
pub fn random_line_entry(addresses: &Vec<NodeAddress>, i1: usize, i2: usize, delay_millis: u64) -> (r: MockWorkEntry)
    requires
        i1 < addresses@.len(),
        i2 + 1 < addresses@.len(),
        delay_millis * 1_000_000 <= u64::MAX,
    ensures
        ({
            let (n1, n2) = (addresses@[i1 as int], addresses@.update(i1 as int, addresses@.last()).drop_last()[i2 as int]);
            &&& r.1.propagation_delay_nanos == delay_millis * 1_000_000
            &&& n1.spec_before(&n2) ==> r.0 == n1 && r.2 == n2
            &&& !n1.spec_before(&n2) ==> r.0 == n2 && r.2 == n1
        }),
{
    let (n1, n2) = pick_line_ends(addresses, i1, i2);
    MockWorkEntry::new(n1, LineDelay::from_millis(delay_millis), n2)
}

/// The least and the greatest of two delays, in that order.
pub fn ordered_delays(a: u32, b: u32) -> (r: (u64, u64))
    ensures
        r.0 == (if a < b { a } else { b }),
        r.1 == (if a < b { b } else { a }),
{
    if a < b {
        (a as u64, b as u64)
    } else {
        (b as u64, a as u64)
    }
}

} // verus!
