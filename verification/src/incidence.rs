//! Which corners of which elements meet at a node.
//!
//! The corners of a table are taken in a fixed order: by element, then by
//! corner. The lists made here keep that order.

use vstd::prelude::*;
use crate::connectivity::Connectivity;
use crate::connectivity::element_is_valid;
use crate::connectivity::table_is_valid;

verus! {

/// A corner of an element: the element's place in the table, and the place of
/// the corner within the element.
pub type Corner = (usize, usize);

/// The corners among the first `upto` of the table that lie at `node`, in the
/// order of the table. The corners are counted through the elements, four to
/// each.
pub open spec fn incident(table: Seq<[usize; 4]>, node: usize, upto: nat) -> Seq<Corner>
    decreases upto,
{
    if upto == 0 {
        Seq::empty()
    } else {
        let k = (upto - 1) as int;
        let before = incident(table, node, (upto - 1) as nat);
        if table[k / 4][k % 4] == node {
            before.push(((k / 4) as usize, (k % 4) as usize))
        } else {
            before
        }
    }
}

/// All the corners that lie at `node`.
pub open spec fn corners_at(table: Seq<[usize; 4]>, node: usize) -> Seq<Corner> {
    incident(table, node, 4 * table.len())
}

/// Adds a value to the end of one list among several.
fn push_to<T>(lists: &mut Vec<Vec<T>>, which: usize, value: T)
    requires
        which < old(lists)@.len(),
    ensures
        final(lists)@.len() == old(lists)@.len(),
        final(lists)@[which as int]@ == old(lists)@[which as int]@.push(value),
        forall|other: int|
            0 <= other < old(lists)@.len() && other != which ==> final(lists)@[other] == old(
                lists,
            )@[other],
{
    lists[which].push(value);
}

/// For each node, the corners that lie at it.
pub fn incidence(connectivity: &Connectivity) -> (lists: Vec<Vec<Corner>>)
    ensures
        lists@.len() == connectivity.node_count(),
        forall|node: usize|
            node < connectivity.node_count() ==> (#[trigger] lists@[node as int])@ == corners_at(
                connectivity@,
                node,
            ),
{
    let nodes = connectivity.number_of_nodes();
    let count = connectivity.len();
    let mut lists: Vec<Vec<Corner>> = Vec::new();
    let mut n: usize = 0;
    while n < nodes
        invariant
            n <= nodes,
            lists@.len() == n,
            forall|node: int| 0 <= node < n ==> (#[trigger] lists@[node])@ == Seq::<Corner>::empty(),
        decreases nodes - n,
    {
        lists.push(Vec::new());
        n += 1;
    }
    let mut e: usize = 0;
    while e < count
        invariant
            e <= count,
            count == connectivity@.len(),
            nodes == connectivity.node_count(),
            lists@.len() == nodes,
            forall|node: usize|
                node < nodes ==> (#[trigger] lists@[node as int])@ == incident(
                    connectivity@,
                    node,
                    (4 * e) as nat,
                ),
        decreases count - e,
    {
        let mut a: usize = 0;
        while a < 4
            invariant
                a <= 4,
                e < count,
                count == connectivity@.len(),
                nodes == connectivity.node_count(),
                lists@.len() == nodes,
                forall|node: usize|
                    node < nodes ==> (#[trigger] lists@[node as int])@ == incident(
                        connectivity@,
                        node,
                        (4 * e + a) as nat,
                    ),
            decreases 4 - a,
        {
            let at = connectivity.node(e, a);
            let ghost before = lists@;
            push_to(&mut lists, at, (e, a));
            proof {
                let k = 4 * e + a;
                assert(k / 4 == e && k % 4 == a);
                assert forall|node: usize| node < nodes implies (#[trigger] lists@[node as int])@
                    == incident(connectivity@, node, (k + 1) as nat) by {
                    assert(before[node as int]@ == incident(connectivity@, node, k as nat));
                    assert(connectivity@[e as int][a as int] == at);
                }
            }
            a += 1;
        }
        e += 1;
    }
    lists
}

/// The place of a corner when the corners are counted through the elements.
pub open spec fn rank(corner: Corner) -> int {
    4 * corner.0 + corner.1
}

/// What holds of the corners found among the first `upto`: each of them lies
/// at the node, they come in the order of the table, and none that lies at the
/// node is left out.
pub proof fn lemma_incident(table: Seq<[usize; 4]>, node: usize, upto: nat)
    requires
        upto <= 4 * table.len(),
        table.len() <= usize::MAX,
    ensures
        forall|i: int|
            0 <= i < incident(table, node, upto).len() ==> {
                let corner = #[trigger] incident(table, node, upto)[i];
                &&& corner.1 < 4
                &&& rank(corner) < upto
                &&& table[corner.0 as int][corner.1 as int] == node
            },
        forall|i: int, j: int|
            0 <= i < j < incident(table, node, upto).len() ==> rank(
                #[trigger] incident(table, node, upto)[i],
            ) < rank(#[trigger] incident(table, node, upto)[j]),
        forall|e: usize, a: usize|
            a < 4 && 4 * e + a < upto && table[e as int][a as int] == node ==> #[trigger] incident(
                table,
                node,
                upto,
            ).contains((e, a)),
    decreases upto,
{
    if upto > 0 {
        let k = (upto - 1) as int;
        let before = incident(table, node, k as nat);
        let now = incident(table, node, upto);
        lemma_incident(table, node, k as nat);
        let last: Corner = ((k / 4) as usize, (k % 4) as usize);
        assert(rank(last) == k);
        if table[k / 4][k % 4] == node {
            assert(now == before.push(last));
            assert(now[before.len() as int] == last);
            assert forall|e: usize, a: usize|
                a < 4 && 4 * e + a < upto && table[e as int][a as int] == node implies #[trigger] now.contains(
                (e, a),
            ) by {
                if 4 * e + a == k {
                    assert((e, a) == last);
                    assert(now[before.len() as int] == (e, a));
                } else {
                    assert(before.contains((e, a)));
                    let i = choose|i: int| 0 <= i < before.len() && before[i] == (e, a);
                    assert(now[i] == (e, a));
                }
            }
        } else {
            assert(now == before);
            assert forall|e: usize, a: usize|
                a < 4 && 4 * e + a < upto && table[e as int][a as int] == node implies #[trigger] now.contains(
                (e, a),
            ) by {
                if 4 * e + a == k {
                    assert(e == k / 4 && a == k % 4);
                }
            }
        }
    }
}

/// A corner is listed at a node exactly if it lies there, and it is listed
/// once.
pub proof fn lemma_corners_at(table: Seq<[usize; 4]>, node: usize)
    requires
        table.len() <= usize::MAX,
    ensures
        forall|e: usize, a: usize|
            #[trigger] corners_at(table, node).contains((e, a)) <==> e < table.len() && a < 4
                && table[e as int][a as int] == node,
        corners_at(table, node).no_duplicates(),
{
    let listed = corners_at(table, node);
    lemma_incident(table, node, 4 * table.len());
    assert forall|e: usize, a: usize| #[trigger] listed.contains((e, a)) implies e < table.len()
        && a < 4 && table[e as int][a as int] == node by {
        let i = choose|i: int| 0 <= i < listed.len() && listed[i] == (e, a);
        assert(rank(listed[i]) < 4 * table.len());
    }
    assert forall|i: int, j: int| 0 <= i < listed.len() && 0 <= j < listed.len() && i != j implies listed[i]
        != listed[j] by {
        if i < j {
            assert(rank(listed[i]) < rank(listed[j]));
        } else {
            assert(rank(listed[j]) < rank(listed[i]));
        }
    }
}

/// In a valid table a node is listed with an element at most once: the lists
/// of one node hold each element at most once.
pub proof fn lemma_one_corner_per_element(table: Seq<[usize; 4]>, nodes: usize, node: usize)
    requires
        table.len() <= usize::MAX,
        table_is_valid(table, nodes),
    ensures
        forall|i: int, j: int|
            0 <= i < j < corners_at(table, node).len() ==> (#[trigger] corners_at(table, node)[i]).0
                < (#[trigger] corners_at(table, node)[j]).0,
{
    let listed = corners_at(table, node);
    lemma_incident(table, node, 4 * table.len());
    assert forall|i: int, j: int| 0 <= i < j < listed.len() implies (#[trigger] listed[i]).0 < (
    #[trigger] listed[j]).0 by {
        let first = listed[i];
        let second = listed[j];
        assert(rank(first) < rank(second));
        if first.0 == second.0 {
            assert(first.1 < second.1);
            assert(table[first.0 as int][first.1 as int] == node);
            assert(table[second.0 as int][second.1 as int] == node);
            assert(rank(second) < 4 * table.len());
            let element = table[first.0 as int];
            assert(element_is_valid(element, nodes));
            assert(element[first.1 as int] != element[second.1 as int]);
        }
    }
}

/// A pair of corners of one element: the element's place in the table, and
/// the places of the two corners within it.
pub type CornerPair = (usize, usize, usize);

/// The pairs of corners among the first `upto` of the table that lie at the
/// nodes `row` and `column`, in the order of the table. The pairs are counted
/// through the elements, sixteen to each, by first corner and then by second.
pub open spec fn incident_pairs(table: Seq<[usize; 4]>, row: usize, column: usize, upto: nat) -> Seq<
    CornerPair,
>
    decreases upto,
{
    if upto == 0 {
        Seq::empty()
    } else {
        let k = (upto - 1) as int;
        let before = incident_pairs(table, row, column, (upto - 1) as nat);
        if table[k / 16][k / 4 % 4] == row && table[k / 16][k % 4] == column {
            before.push(((k / 16) as usize, (k / 4 % 4) as usize, (k % 4) as usize))
        } else {
            before
        }
    }
}

} // verus!
