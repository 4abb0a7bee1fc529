//! Adding the parts of the elements up into the results of a block.
//!
//! A block's energy, forces and stiffnesses are sums over the elements. The
//! part of an element that belongs to one of its corners is added to the node
//! at that corner; the part that belongs to a pair of its corners, to the
//! pair of nodes. The order of the additions is fixed here: by element, then
//! by corner. The addition itself works on scalars and is the caller's.

use vstd::prelude::*;
use vstd::arithmetic::div_mod::lemma_fundamental_div_mod_converse;
use crate::connectivity::Connectivity;
use crate::incidence::incident;
use crate::incidence::incident_pairs;
use crate::incidence::Corner;
use crate::incidence::CornerPair;

verus! {

/// Whether `total` is what comes of adding the terms to `start` one after
/// another, in their order, where `combine` does the adding.
pub open spec fn accumulates<T, F: Fn(T, T) -> T>(combine: F, start: T, terms: Seq<T>, total: T) -> bool
    decreases terms.len(),
{
    if terms.len() == 0 {
        total == start
    } else {
        exists|before: T|
            accumulates(combine, start, terms.drop_last(), before) && #[trigger] call_ensures(
                combine,
                (before, terms.last()),
                total,
            )
    }
}

/// The parts of the elements that belong to the corners among the first
/// `upto` that lie at `node`, in the order of the table.
pub open spec fn terms<T>(table: Seq<[usize; 4]>, parts: Seq<[T; 4]>, node: usize, upto: nat) -> Seq<
    T,
> {
    incident(table, node, upto).map_values(|corner: Corner| parts[corner.0 as int][corner.1 as int])
}

/// All the parts that belong to `node`.
pub open spec fn terms_at<T>(table: Seq<[usize; 4]>, parts: Seq<[T; 4]>, node: usize) -> Seq<T> {
    terms(table, parts, node, 4 * table.len())
}

/// One more term: what was the total before, and what `combine` made of it
/// and the term.
pub proof fn lemma_accumulates_push<T, F: Fn(T, T) -> T>(
    combine: F,
    start: T,
    terms: Seq<T>,
    before: T,
    part: T,
    after: T,
)
    requires
        accumulates(combine, start, terms, before),
        call_ensures(combine, (before, part), after),
    ensures
        accumulates(combine, start, terms.push(part), after),
{
    let longer = terms.push(part);
    assert(longer.drop_last() =~= terms);
    assert(call_ensures(combine, (before, longer.last()), after));
}

/// The terms of a node grow by the part of the next corner if that corner
/// lies at the node, and stay as they are if it does not.
proof fn lemma_terms_step<T>(table: Seq<[usize; 4]>, parts: Seq<[T; 4]>, node: usize, k: nat)
    requires
        k / 4 <= usize::MAX,
    ensures
        terms(table, parts, node, k + 1) == if table[k as int / 4][k as int % 4] == node {
            terms(table, parts, node, k).push(parts[k as int / 4][k as int % 4])
        } else {
            terms(table, parts, node, k)
        },
{
    let pick = |corner: Corner| parts[corner.0 as int][corner.1 as int];
    let listed = incident(table, node, k);
    if table[k as int / 4][k as int % 4] == node {
        let corner: Corner = ((k as int / 4) as usize, (k as int % 4) as usize);
        assert(incident(table, node, k + 1) == listed.push(corner));
        assert(listed.push(corner).map_values(pick) =~= listed.map_values(pick).push(pick(corner)));
    } else {
        assert(incident(table, node, k + 1) == listed);
    }
}

/// Adds to each node the parts of the elements that belong to it: for each
/// element, one part for each of its corners. The parts are added by element,
/// then by corner, starting from `zero`.
pub fn scatter_add<T: Copy, F: Fn(T, T) -> T>(
    connectivity: &Connectivity,
    parts: &Vec<[T; 4]>,
    zero: T,
    combine: F,
) -> (totals: Vec<T>)
    requires
        parts@.len() == connectivity@.len(),
        forall|sum: T, part: T| call_requires(combine, (sum, part)),
    ensures
        totals@.len() == connectivity.node_count(),
        forall|node: usize|
            node < connectivity.node_count() ==> accumulates(
                combine,
                zero,
                terms_at(connectivity@, parts@, node),
                #[trigger] totals@[node as int],
            ),
{
    let nodes = connectivity.number_of_nodes();
    let count = connectivity.len();
    let mut totals: Vec<T> = Vec::new();
    let mut n: usize = 0;
    while n < nodes
        invariant
            n <= nodes,
            totals@.len() == n,
            forall|node: int| 0 <= node < n ==> #[trigger] totals@[node] == zero,
        decreases nodes - n,
    {
        totals.push(zero);
        n += 1;
    }
    let mut e: usize = 0;
    while e < count
        invariant
            e <= count,
            count == connectivity@.len(),
            parts@.len() == count,
            nodes == connectivity.node_count(),
            totals@.len() == nodes,
            forall|sum: T, part: T| call_requires(combine, (sum, part)),
            forall|node: usize|
                node < nodes ==> accumulates(
                    combine,
                    zero,
                    terms(connectivity@, parts@, node, (4 * e) as nat),
                    #[trigger] totals@[node as int],
                ),
        decreases count - e,
    {
        let element = parts[e];
        let mut a: usize = 0;
        while a < 4
            invariant
                a <= 4,
                e < count,
                count == connectivity@.len(),
                parts@.len() == count,
                element == parts@[e as int],
                nodes == connectivity.node_count(),
                totals@.len() == nodes,
                forall|sum: T, part: T| call_requires(combine, (sum, part)),
                forall|node: usize|
                    node < nodes ==> accumulates(
                        combine,
                        zero,
                        terms(connectivity@, parts@, node, (4 * e + a) as nat),
                        #[trigger] totals@[node as int],
                    ),
            decreases 4 - a,
        {
            let at = connectivity.node(e, a);
            let before = totals[at];
            let part = element[a];
            let after = combine(before, part);
            let ghost sums = totals@;
            totals.set(at, after);
            proof {
                let k = (4 * e + a) as nat;
                assert(k as int / 4 == e && k as int % 4 == a);
                assert forall|node: usize| node < nodes implies accumulates(
                    combine,
                    zero,
                    terms(connectivity@, parts@, node, k + 1),
                    #[trigger] totals@[node as int],
                ) by {
                    lemma_terms_step(connectivity@, parts@, node, k);
                    if node == at {
                        lemma_accumulates_push(
                            combine,
                            zero,
                            terms(connectivity@, parts@, node, k),
                            before,
                            part,
                            after,
                        );
                    } else {
                        assert(totals@[node as int] == sums[node as int]);
                    }
                }
            }
            a += 1;
        }
        e += 1;
    }
    totals
}

/// The place of a pair of nodes where there is one entry for each pair, by
/// row node and then by column node.
pub open spec fn pair_place(nodes: int, row: int, column: int) -> int {
    row * nodes + column
}

/// The parts of the elements that belong to the pairs of corners among the
/// first `upto` that lie at `row` and `column`, in the order of the table.
pub open spec fn pair_terms<T>(
    table: Seq<[usize; 4]>,
    parts: Seq<[[T; 4]; 4]>,
    row: usize,
    column: usize,
    upto: nat,
) -> Seq<T> {
    incident_pairs(table, row, column, upto).map_values(
        |pair: CornerPair| parts[pair.0 as int][pair.1 as int][pair.2 as int],
    )
}

/// All the parts that belong to the pair of nodes `row` and `column`.
pub open spec fn pair_terms_at<T>(
    table: Seq<[usize; 4]>,
    parts: Seq<[[T; 4]; 4]>,
    row: usize,
    column: usize,
) -> Seq<T> {
    pair_terms(table, parts, row, column, 16 * table.len())
}

/// Two pairs of nodes that share a place are the same pair.
pub proof fn lemma_pair_place(nodes: int, row: int, column: int, other_row: int, other_column: int)
    requires
        0 <= row,
        0 <= other_row,
        0 <= column < nodes,
        0 <= other_column < nodes,
        pair_place(nodes, row, column) == pair_place(nodes, other_row, other_column),
    ensures
        row == other_row,
        column == other_column,
{
    lemma_fundamental_div_mod_converse(pair_place(nodes, row, column), nodes, row, column);
    lemma_fundamental_div_mod_converse(
        pair_place(nodes, row, column),
        nodes,
        other_row,
        other_column,
    );
}

/// Every pair of nodes has a place below the number of pairs.
pub proof fn lemma_pair_place_in_range(nodes: int, row: int, column: int)
    requires
        0 <= row < nodes,
        0 <= column < nodes,
    ensures
        0 <= pair_place(nodes, row, column) < nodes * nodes,
{
    assert(0 <= row * nodes && row * nodes + nodes <= nodes * nodes) by (nonlinear_arith)
        requires
            0 <= row,
            row + 1 <= nodes,
    ;
}

/// The terms of a pair of nodes grow by the part of the next pair of corners
/// if that pair lies at the two nodes, and stay as they are if it does not.
proof fn lemma_pair_terms_step<T>(
    table: Seq<[usize; 4]>,
    parts: Seq<[[T; 4]; 4]>,
    row: usize,
    column: usize,
    k: nat,
)
    requires
        k / 16 <= usize::MAX,
    ensures
        pair_terms(table, parts, row, column, k + 1) == if table[k as int / 16][k as int / 4 % 4]
            == row && table[k as int / 16][k as int % 4] == column {
            pair_terms(table, parts, row, column, k).push(
                parts[k as int / 16][k as int / 4 % 4][k as int % 4],
            )
        } else {
            pair_terms(table, parts, row, column, k)
        },
{
    let pick = |pair: CornerPair| parts[pair.0 as int][pair.1 as int][pair.2 as int];
    let listed = incident_pairs(table, row, column, k);
    if table[k as int / 16][k as int / 4 % 4] == row && table[k as int / 16][k as int % 4]
        == column {
        let pair: CornerPair = (
            (k as int / 16) as usize,
            (k as int / 4 % 4) as usize,
            (k as int % 4) as usize,
        );
        assert(incident_pairs(table, row, column, k + 1) == listed.push(pair));
        assert(listed.push(pair).map_values(pick) =~= listed.map_values(pick).push(pick(pair)));
    } else {
        assert(incident_pairs(table, row, column, k + 1) == listed);
    }
}

/// Adds to each pair of nodes the parts of the elements that belong to it:
/// for each element, one part for each pair of its corners. The parts are
/// added by element, then by first corner, then by second corner, starting
/// from `zero`. The totals lie by row node and then by column node; there are
/// none if the number of pairs does not fit the machine.
pub fn scatter_add_pairs<T: Copy, F: Fn(T, T) -> T>(
    connectivity: &Connectivity,
    parts: &Vec<[[T; 4]; 4]>,
    zero: T,
    combine: F,
) -> (outcome: Option<Vec<T>>)
    requires
        parts@.len() == connectivity@.len(),
        forall|sum: T, part: T| call_requires(combine, (sum, part)),
    ensures
        outcome is Some <==> connectivity.node_count() * connectivity.node_count() <= usize::MAX,
        outcome matches Some(totals) ==> {
            &&& totals@.len() == connectivity.node_count() * connectivity.node_count()
            &&& forall|row: usize, column: usize|
                row < connectivity.node_count() && column < connectivity.node_count()
                    ==> accumulates(
                    combine,
                    zero,
                    pair_terms_at(connectivity@, parts@, row, column),
                    #[trigger] totals@[pair_place(
                        connectivity.node_count() as int,
                        row as int,
                        column as int,
                    )],
                )
        },
{
    let nodes = connectivity.number_of_nodes();
    let count = connectivity.len();
    let Some(pairs) = nodes.checked_mul(nodes) else {
        return None;
    };
    let mut totals: Vec<T> = Vec::new();
    let mut n: usize = 0;
    while n < pairs
        invariant
            n <= pairs,
            totals@.len() == n,
            forall|place: int| 0 <= place < n ==> #[trigger] totals@[place] == zero,
        decreases pairs - n,
    {
        totals.push(zero);
        n += 1;
    }
    proof {
        assert forall|row: usize, column: usize| row < nodes && column < nodes implies accumulates(
            combine,
            zero,
            pair_terms(connectivity@, parts@, row, column, 0),
            #[trigger] totals@[pair_place(nodes as int, row as int, column as int)],
        ) by {
            lemma_pair_place_in_range(nodes as int, row as int, column as int);
        }
    }
    let mut e: usize = 0;
    while e < count
        invariant
            e <= count,
            count == connectivity@.len(),
            parts@.len() == count,
            nodes == connectivity.node_count(),
            pairs == nodes * nodes,
            totals@.len() == pairs,
            forall|sum: T, part: T| call_requires(combine, (sum, part)),
            forall|row: usize, column: usize|
                row < nodes && column < nodes ==> accumulates(
                    combine,
                    zero,
                    pair_terms(connectivity@, parts@, row, column, (16 * e) as nat),
                    #[trigger] totals@[pair_place(nodes as int, row as int, column as int)],
                ),
        decreases count - e,
    {
        let element = parts[e];
        let mut a: usize = 0;
        while a < 4
            invariant
                a <= 4,
                e < count,
                count == connectivity@.len(),
                parts@.len() == count,
                element == parts@[e as int],
                nodes == connectivity.node_count(),
                pairs == nodes * nodes,
                totals@.len() == pairs,
                forall|sum: T, part: T| call_requires(combine, (sum, part)),
                forall|row: usize, column: usize|
                    row < nodes && column < nodes ==> accumulates(
                        combine,
                        zero,
                        pair_terms(connectivity@, parts@, row, column, (16 * e + 4 * a) as nat),
                        #[trigger] totals@[pair_place(nodes as int, row as int, column as int)],
                    ),
            decreases 4 - a,
        {
            let from = connectivity.node(e, a);
            let mut b: usize = 0;
            while b < 4
                invariant
                    b <= 4,
                    a < 4,
                    e < count,
                    count == connectivity@.len(),
                    parts@.len() == count,
                    element == parts@[e as int],
                    nodes == connectivity.node_count(),
                    pairs == nodes * nodes,
                    totals@.len() == pairs,
                    from == connectivity@[e as int][a as int],
                    from < nodes,
                    forall|sum: T, part: T| call_requires(combine, (sum, part)),
                    forall|row: usize, column: usize|
                        row < nodes && column < nodes ==> accumulates(
                            combine,
                            zero,
                            pair_terms(
                                connectivity@,
                                parts@,
                                row,
                                column,
                                (16 * e + 4 * a + b) as nat,
                            ),
                            #[trigger] totals@[pair_place(nodes as int, row as int, column as int)],
                        ),
                decreases 4 - b,
            {
                let to = connectivity.node(e, b);
                proof {
                    lemma_pair_place_in_range(nodes as int, from as int, to as int);
                }
                let at: usize = from * nodes + to;
                let before = totals[at];
                let part = element[a][b];
                let after = combine(before, part);
                let ghost sums = totals@;
                totals.set(at, after);
                proof {
                    let k = (16 * e + 4 * a + b) as nat;
                    assert(k as int / 16 == e && k as int / 4 % 4 == a && k as int % 4 == b);
                    assert forall|row: usize, column: usize|
                        row < nodes && column < nodes implies accumulates(
                        combine,
                        zero,
                        pair_terms(connectivity@, parts@, row, column, k + 1),
                        #[trigger] totals@[pair_place(nodes as int, row as int, column as int)],
                    ) by {
                        let place = pair_place(nodes as int, row as int, column as int);
                        lemma_pair_place_in_range(nodes as int, row as int, column as int);
                        lemma_pair_terms_step(connectivity@, parts@, row, column, k);
                        if row == from && column == to {
                            lemma_accumulates_push(
                                combine,
                                zero,
                                pair_terms(connectivity@, parts@, row, column, k),
                                before,
                                part,
                                after,
                            );
                        } else {
                            if place == at {
                                lemma_pair_place(
                                    nodes as int,
                                    row as int,
                                    column as int,
                                    from as int,
                                    to as int,
                                );
                            }
                            assert(totals@[place] == sums[place]);
                        }
                    }
                }
                b += 1;
            }
            a += 1;
        }
        e += 1;
    }
    Some(totals)
}

/// Adds the parts of the elements to one total, in the order of the elements
/// and starting from `zero`.
pub fn accumulate<T: Copy, F: Fn(T, T) -> T>(parts: &Vec<T>, zero: T, combine: F) -> (total: T)
    requires
        forall|sum: T, part: T| call_requires(combine, (sum, part)),
    ensures
        accumulates(combine, zero, parts@, total),
{
    let mut total = zero;
    let mut e: usize = 0;
    while e < parts.len()
        invariant
            e <= parts@.len(),
            forall|sum: T, part: T| call_requires(combine, (sum, part)),
            accumulates(combine, zero, parts@.take(e as int), total),
        decreases parts@.len() - e,
    {
        let ghost before = total;
        total = combine(total, parts[e]);
        proof {
            let taken = parts@.take(e + 1);
            assert(taken.drop_last() =~= parts@.take(e as int));
            assert(call_ensures(combine, (before, taken.last()), total));
        }
        e += 1;
    }
    assert(parts@.take(e as int) =~= parts@);
    total
}

/// Where `combine` can give only one result for each pair of arguments, a
/// sum has only one total: adding the same parts in the same order gives the
/// same result.
pub proof fn lemma_accumulates_unique<T, F: Fn(T, T) -> T>(
    combine: F,
    start: T,
    terms: Seq<T>,
    first: T,
    second: T,
)
    requires
        forall|sum: T, part: T, one: T, other: T|
            #[trigger] call_ensures(combine, (sum, part), one) && #[trigger] call_ensures(
                combine,
                (sum, part),
                other,
            ) ==> one == other,
        accumulates(combine, start, terms, first),
        accumulates(combine, start, terms, second),
    ensures
        first == second,
    decreases terms.len(),
{
    if terms.len() > 0 {
        let before_first = choose|before: T|
            accumulates(combine, start, terms.drop_last(), before) && #[trigger] call_ensures(
                combine,
                (before, terms.last()),
                first,
            );
        let before_second = choose|before: T|
            accumulates(combine, start, terms.drop_last(), before) && #[trigger] call_ensures(
                combine,
                (before, terms.last()),
                second,
            );
        lemma_accumulates_unique(combine, start, terms.drop_last(), before_first, before_second);
    }
}

/// Where adding `zero` to `zero` gives `zero`, parts that are all `zero` add
/// up to `zero`.
pub proof fn lemma_accumulates_zero<T, F: Fn(T, T) -> T>(
    combine: F,
    zero: T,
    terms: Seq<T>,
    total: T,
)
    requires
        forall|sum: T| #[trigger] call_ensures(combine, (zero, zero), sum) ==> sum == zero,
        forall|i: int| 0 <= i < terms.len() ==> #[trigger] terms[i] == zero,
        accumulates(combine, zero, terms, total),
    ensures
        total == zero,
    decreases terms.len(),
{
    if terms.len() > 0 {
        let before = choose|before: T|
            accumulates(combine, zero, terms.drop_last(), before) && #[trigger] call_ensures(
                combine,
                (before, terms.last()),
                total,
            );
        lemma_accumulates_zero(combine, zero, terms.drop_last(), before);
        assert(terms.last() == zero);
    }
}

} // verus!
