//! A block of linear tetrahedra of one material: what is fixed when the block
//! is set up, and where the parts of an element go in the block's results.

use vstd::prelude::*;
use crate::assembly::pair_place;
use crate::connectivity::Connectivity;
use crate::connectivity::table_is_valid;
use crate::error::Error;
use crate::layout::flat;
use crate::layout::size;
use crate::layout::Shape;
use crate::model::ModelKind;

verus! {

/// The kind of material and the connectivity of a block.
#[derive(Debug)]
pub struct Block {
    kind: ModelKind,
    connectivity: Connectivity,
}

impl Block {
    /// The kind of material.
    pub closed spec fn model(&self) -> ModelKind {
        self.kind
    }

    /// The elements, each with its four nodes.
    pub closed spec fn view(&self) -> Seq<[usize; 4]> {
        self.connectivity@
    }

    /// The number of nodes.
    pub closed spec fn node_count(&self) -> usize {
        self.connectivity.node_count()
    }

    /// Sets up a block. A table with a node out of range, or with a node
    /// twice in one element, is refused.
    pub fn new(kind: ModelKind, elements: Vec<[usize; 4]>, nodes: usize) -> (outcome: Result<
        Block,
        Error,
    >)
        ensures
            outcome is Ok <==> table_is_valid(elements@, nodes),
            outcome matches Ok(block) ==> block@ == elements@ && block.node_count() == nodes
                && block.model() == kind,
            outcome matches Err(error) ==> error == Error::InvalidConnectivity,
    {
        match Connectivity::new(elements, nodes) {
            Ok(connectivity) => Ok(Block { kind, connectivity }),
            Err(error) => Err(error),
        }
    }

    /// The kind of material.
    pub fn kind(&self) -> (kind: ModelKind)
        ensures
            kind == self.model(),
    {
        self.kind
    }

    /// The connectivity.
    pub fn connectivity(&self) -> (connectivity: &Connectivity)
        ensures
            connectivity@ == self@,
            connectivity.node_count() == self.node_count(),
    {
        &self.connectivity
    }

    /// The number of elements.
    pub fn len(&self) -> (count: usize)
        ensures
            count == self@.len(),
    {
        self.connectivity.len()
    }

    /// The number of nodes.
    pub fn number_of_nodes(&self) -> (count: usize)
        ensures
            count == self.node_count(),
    {
        self.connectivity.number_of_nodes()
    }

    /// Whether a set of nodal coordinates has one entry for each node of the
    /// block.
    pub fn accepts(&self, coordinates: usize) -> (fits: bool)
        ensures
            fits == (coordinates == self.node_count()),
    {
        coordinates == self.connectivity.number_of_nodes()
    }

    /// Admits a request for the block's energy: refused for a material that
    /// defines none.
    pub fn require_energy(&self) -> (outcome: Result<(), Error>)
        ensures
            outcome is Ok <==> self.model().is_hyperelastic(),
            outcome is Err ==> outcome == Err::<(), Error>(Error::UnsupportedCapability),
    {
        self.kind.require_energy_density()
    }

    /// The shape of the block's stiffnesses; none if their number does not
    /// fit the machine.
    pub fn stiffness_shape(&self) -> (outcome: Option<Shape>)
        ensures
            outcome is Some <==> 9 * self.node_count() * self.node_count() <= usize::MAX,
            outcome matches Some(shape) ==> shape@[0] == self.node_count() && shape@[1]
                == self.node_count() && shape@[2] == 3 && shape@[3] == 3 && size(shape@) == 9
                * self.node_count() * self.node_count(),
    {
        Shape::stiffnesses(self.connectivity.number_of_nodes())
    }
}

/// Where the stiffnesses are laid out as `nodes x nodes x 3 x 3`, the 3 x 3
/// part of a pair of nodes begins at nine times the place of the pair.
pub proof fn lemma_stiffness_layout(dims: [usize; 4], index: [usize; 4])
    requires
        dims[1] == dims[0],
        dims[2] == 3,
        dims[3] == 3,
    ensures
        flat(dims, index) == 9 * pair_place(dims[0] as int, index[0] as int, index[1] as int) + 3
            * index[2] + index[3],
{
}

/// Whether the evaluation of an element can end with a value.
pub open spec fn succeeds<T, F: Fn(usize) -> Result<T, Error>>(element: F, e: usize) -> bool {
    exists|value: T| #[trigger] call_ensures(element, (e,), Ok::<T, Error>(value))
}

/// Evaluates the elements of a block one after another, from the first. The
/// first failure ends the evaluation and is the outcome: no values of the
/// elements before it are handed out.
pub fn evaluate<T, F: Fn(usize) -> Result<T, Error>>(count: usize, element: F) -> (outcome: Result<
    Vec<T>,
    Error,
>)
    requires
        forall|e: usize| e < count ==> call_requires(element, (e,)),
    ensures
        outcome matches Ok(values) ==> values@.len() == count && forall|e: usize|
            e < count ==> call_ensures(element, (e,), Ok::<T, Error>(#[trigger] values@[e as int])),
        outcome matches Err(error) ==> exists|failed: usize|
            failed < count && #[trigger] call_ensures(element, (failed,), Err::<T, Error>(error))
                && forall|e: usize| e < failed ==> #[trigger] succeeds(element, e),
{
    let mut values: Vec<T> = Vec::new();
    let mut e: usize = 0;
    while e < count
        invariant
            e <= count,
            values@.len() == e,
            forall|i: usize| i < count ==> call_requires(element, (i,)),
            forall|i: usize|
                i < e ==> call_ensures(element, (i,), Ok::<T, Error>(#[trigger] values@[i as int])),
        decreases count - e,
    {
        match element(e) {
            Ok(value) => {
                values.push(value);
            },
            Err(error) => {
                assert forall|i: usize| i < e implies #[trigger] succeeds(element, i) by {
                    assert(call_ensures(element, (i,), Ok::<T, Error>(values@[i as int])));
                }
                assert(call_ensures(element, (e,), Err::<T, Error>(error)));
                return Err(error);
            },
        }
        e += 1;
    }
    Ok(values)
}

} // verus!
