//! The connectivity of a block of linear tetrahedra: for each element, the
//! four nodes at its corners.

use vstd::prelude::*;
use crate::error::Error;

verus! {

/// The number of nodes of a linear tetrahedron.
pub const NODES_PER_ELEMENT: usize = 4;

/// Whether an element names four different nodes, each of them below `nodes`.
pub open spec fn element_is_valid(element: [usize; 4], nodes: usize) -> bool {
    &&& forall|a: int| 0 <= a < 4 ==> #[trigger] element[a] < nodes
    &&& forall|a: int, b: int| 0 <= a < b < 4 ==> element[a] != element[b]
}

/// Whether every element of a table is valid.
pub open spec fn table_is_valid(elements: Seq<[usize; 4]>, nodes: usize) -> bool {
    forall|e: int| 0 <= e < elements.len() ==> element_is_valid(#[trigger] elements[e], nodes)
}

/// A connectivity table that has been checked against the number of nodes.
#[derive(Debug)]
pub struct Connectivity {
    elements: Vec<[usize; 4]>,
    nodes: usize,
}

/// Decides `element_is_valid`.
pub fn check_element(element: &[usize; 4], nodes: usize) -> (valid: bool)
    ensures
        valid == element_is_valid(*element, nodes),
{
    let n0: usize = element[0];
    let n1: usize = element[1];
    let n2: usize = element[2];
    let n3: usize = element[3];
    let bounded = n0 < nodes && n1 < nodes && n2 < nodes && n3 < nodes;
    let distinct = n0 != n1 && n0 != n2 && n0 != n3 && n1 != n2 && n1 != n3 && n2 != n3;
    proof {
        if bounded && distinct {
            assert forall|a: int| 0 <= a < 4 implies #[trigger] element[a] < nodes by {
                assert(a == 0 || a == 1 || a == 2 || a == 3);
            }
            assert forall|a: int, b: int| 0 <= a < b < 4 implies element[a] != element[b] by {
                assert(a == 0 || a == 1 || a == 2);
                assert(b == 1 || b == 2 || b == 3);
            }
        } else if !bounded {
            assert(!(element[0] < nodes && element[1] < nodes && element[2] < nodes && element[3]
                < nodes));
        } else {
            assert(element[0] == element[1] || element[0] == element[2] || element[0] == element[3]
                || element[1] == element[2] || element[1] == element[3] || element[2]
                == element[3]);
        }
    }
    bounded && distinct
}

impl Connectivity {
    /// What a table has to fulfil to be held.
    #[verifier::type_invariant]
    pub closed spec fn wf(&self) -> bool {
        table_is_valid(self.elements@, self.nodes)
    }

    /// The elements, each with its four nodes.
    pub closed spec fn view(&self) -> Seq<[usize; 4]> {
        self.elements@
    }

    /// The number of nodes that the elements may name.
    pub closed spec fn node_count(&self) -> usize {
        self.nodes
    }

    /// The node at corner `corner` of element `element`.
    pub open spec fn node_at(&self, element: int, corner: int) -> usize {
        self@[element][corner]
    }

    /// What holds of every table that is held: its elements are valid.
    pub proof fn lemma_valid(&self)
        requires
            self.wf(),
        ensures
            table_is_valid(self@, self.node_count()),
    {
    }

    /// Checks a table against the number of nodes and keeps it. A table with
    /// a node out of range, or with a node twice in one element, is refused.
    pub fn new(elements: Vec<[usize; 4]>, nodes: usize) -> (outcome: Result<Connectivity, Error>)
        ensures
            outcome is Ok <==> table_is_valid(elements@, nodes),
            outcome matches Ok(table) ==> table@ == elements@ && table.node_count() == nodes,
            outcome matches Err(error) ==> error == Error::InvalidConnectivity,
    {
        let mut e: usize = 0;
        while e < elements.len()
            invariant
                e <= elements.len(),
                table_is_valid(elements@.take(e as int), nodes),
            decreases elements.len() - e,
        {
            if !check_element(&elements[e], nodes) {
                return Err(Error::InvalidConnectivity);
            }
            proof {
                let before = elements@.take(e as int);
                let after = elements@.take(e + 1);
                assert forall|k: int| 0 <= k < after.len() implies element_is_valid(
                    #[trigger] after[k],
                    nodes,
                ) by {
                    if k < e {
                        assert(after[k] == before[k]);
                    }
                }
            }
            e += 1;
        }
        assert(elements@.take(e as int) =~= elements@);
        Ok(Connectivity { elements, nodes })
    }

    /// The number of elements.
    pub fn len(&self) -> (count: usize)
        ensures
            count == self@.len(),
    {
        self.elements.len()
    }

    /// The number of nodes that the elements may name.
    pub fn number_of_nodes(&self) -> (count: usize)
        ensures
            count == self.node_count(),
    {
        self.nodes
    }

    /// The four nodes of an element.
    pub fn element(&self, element: usize) -> (nodes: [usize; 4])
        requires
            element < self@.len(),
        ensures
            nodes == self@[element as int],
            element_is_valid(nodes, self.node_count()),
    {
        proof {
            use_type_invariant(self);
        }
        self.elements[element]
    }

    /// The node at one corner of an element.
    pub fn node(&self, element: usize, corner: usize) -> (node: usize)
        requires
            element < self@.len(),
            corner < 4,
        ensures
            node == self.node_at(element as int, corner as int),
            node < self.node_count(),
    {
        proof {
            use_type_invariant(self);
        }
        self.elements[element][corner]
    }

    /// The values that belong to the four nodes of an element, picked out of
    /// one value per node.
    pub fn gather<T: Copy>(&self, element: usize, values: &Vec<T>) -> (picked: [T; 4])
        requires
            element < self@.len(),
            values@.len() == self.node_count(),
        ensures
            forall|a: int| 0 <= a < 4 ==> #[trigger] picked[a] == values@[self.node_at(element as int, a) as int],
    {
        proof {
            use_type_invariant(self);
        }
        let nodes = self.elements[element];
        [values[nodes[0]], values[nodes[1]], values[nodes[2]], values[nodes[3]]]
    }
}

} // verus!
