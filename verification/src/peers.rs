//! Which peers the node reconnects to.

use vstd::prelude::*;

verus! {

/// Whether two node ids are the same.
pub fn same_node(a: &[u8; 33], b: &[u8; 33]) -> (same: bool)
    ensures
        same == (*a == *b),
{
    let mut i: usize = 0;
    while i < 33
        invariant
            i <= 33,
            forall|k: int| 0 <= k < i ==> a[k] == b[k],
        decreases 33 - i,
    {
        if a[i] != b[i] {
            return false;
        }
        i = i + 1;
    }
    assert(*a =~= *b);
    true
}

/// Whether a node id stands in a list.
pub fn contains_node(nodes: &Vec<[u8; 33]>, node: &[u8; 33]) -> (found: bool)
    ensures
        found == nodes@.contains(*node),
{
    let mut i: usize = 0;
    while i < nodes.len()
        invariant
            i <= nodes@.len(),
            forall|k: int| 0 <= k < i ==> nodes@[k] != *node,
        decreases nodes@.len() - i,
    {
        if same_node(&nodes[i], node) {
            return true;
        }
        i = i + 1;
    }
    false
}

/// The counterparties to reconnect to, in the order of their channels: those that are
/// not connected and whose address is known.
pub open spec fn to_reconnect(
    counterparties: Seq<[u8; 33]>,
    connected: Seq<[u8; 33]>,
    known: Seq<[u8; 33]>,
) -> Seq<[u8; 33]>
    decreases counterparties.len(),
{
    if counterparties.len() == 0 {
        counterparties
    } else {
        let head = to_reconnect(counterparties.drop_last(), connected, known);
        let last = counterparties.last();
        if !connected.contains(last) && known.contains(last) {
            head.push(last)
        } else {
            head
        }
    }
}

/// Picks the counterparties of the node's channels to reconnect to.
pub fn peers_to_reconnect(
    counterparties: &Vec<[u8; 33]>,
    connected: &Vec<[u8; 33]>,
    known: &Vec<[u8; 33]>,
) -> (peers: Vec<[u8; 33]>)
    ensures
        peers@ == to_reconnect(counterparties@, connected@, known@),
{
    let mut peers: Vec<[u8; 33]> = Vec::new();
    let mut i: usize = 0;
    proof {
        assert(counterparties@.take(0) =~= Seq::<[u8; 33]>::empty());
    }
    while i < counterparties.len()
        invariant
            i <= counterparties@.len(),
            peers@ == to_reconnect(counterparties@.take(i as int), connected@, known@),
        decreases counterparties@.len() - i,
    {
        let node = counterparties[i];
        proof {
            let next = counterparties@.take(i + 1);
            assert(next.drop_last() =~= counterparties@.take(i as int));
            assert(next.last() == node);
        }
        if !contains_node(connected, &node) && contains_node(known, &node) {
            peers.push(node);
        }
        i = i + 1;
    }
    proof {
        assert(counterparties@.take(i as int) =~= counterparties@);
    }
    peers
}

} // verus!
