//! Where the components of an array of four indices lie in a flat buffer.
//!
//! The last index runs fastest. A rank-4 tensor has the shape `3 x 3 x 3 x 3`;
//! the stiffnesses of a block with `n` nodes have the shape `n x n x 3 x 3`.

use vstd::prelude::*;
use vstd::arithmetic::div_mod::lemma_fundamental_div_mod_converse;
use vstd::arithmetic::div_mod::lemma_fundamental_div_mod;

verus! {

/// The number of components that a shape holds.
pub open spec fn size(dims: [usize; 4]) -> int {
    dims[0] * dims[1] * dims[2] * dims[3]
}

/// Whether each index lies below its extent.
pub open spec fn within(dims: [usize; 4], index: [usize; 4]) -> bool {
    index[0] < dims[0] && index[1] < dims[1] && index[2] < dims[2] && index[3] < dims[3]
}

/// The place of a component in the flat buffer.
pub open spec fn flat(dims: [usize; 4], index: [usize; 4]) -> int {
    ((index[0] * dims[1] + index[1]) * dims[2] + index[2]) * dims[3] + index[3]
}

/// A digit `low` below `base` appended to `high` stays below the bound that
/// `high` had, times the base, and can be read off again.
proof fn lemma_digit(high: int, low: int, bound: int, base: int)
    requires
        0 <= high < bound,
        0 <= low < base,
    ensures
        0 <= high * base + low < bound * base,
        (high * base + low) / base == high,
        (high * base + low) % base == low,
{
    assert(0 <= high * base) by (nonlinear_arith)
        requires
            0 <= high,
            0 < base,
    ;
    assert(high * base + base <= bound * base) by (nonlinear_arith)
        requires
            high + 1 <= bound,
            0 < base,
    ;
    lemma_fundamental_div_mod_converse(high * base + low, base, high, low);
}

/// Splitting the last digit off a number below `bound * base` leaves a number
/// below `bound`.
proof fn lemma_split(value: int, bound: int, base: int)
    requires
        0 <= value < bound * base,
        0 < base,
    ensures
        0 <= value / base < bound,
        0 <= value % base < base,
        value == (value / base) * base + value % base,
{
    lemma_fundamental_div_mod(value, base);
    let q = value / base;
    let r = value % base;
    assert(base * q == q * base) by (nonlinear_arith);
    assert(0 <= r < base);
    assert(q >= 0) by (nonlinear_arith)
        requires
            q * base + r >= 0,
            r < base,
            0 < base,
    ;
    assert(q < bound) by (nonlinear_arith)
        requires
            q * base + r < bound * base,
            0 <= r,
            0 < base,
    ;
}

/// Every component of a shape has a place below the shape's size.
pub proof fn lemma_flat_in_range(dims: [usize; 4], index: [usize; 4])
    requires
        within(dims, index),
    ensures
        0 <= flat(dims, index) < size(dims),
{
    let a = index[0] as int;
    lemma_digit(a, index[1] as int, dims[0] as int, dims[1] as int);
    let b = a * dims[1] + index[1];
    lemma_digit(b, index[2] as int, dims[0] * dims[1], dims[2] as int);
    let c = b * dims[2] + index[2];
    lemma_digit(c, index[3] as int, dims[0] * dims[1] * dims[2], dims[3] as int);
}

/// Two components that share a place are the same component.
pub proof fn lemma_flat_injective(dims: [usize; 4], first: [usize; 4], second: [usize; 4])
    requires
        within(dims, first),
        within(dims, second),
        flat(dims, first) == flat(dims, second),
    ensures
        first@ == second@,
{
    let b1 = first[0] * dims[1] + first[1];
    let c1 = b1 * dims[2] + first[2];
    let b2 = second[0] * dims[1] + second[1];
    let c2 = b2 * dims[2] + second[2];
    lemma_digit(first[0] as int, first[1] as int, dims[0] as int, dims[1] as int);
    lemma_digit(b1, first[2] as int, dims[0] * dims[1], dims[2] as int);
    lemma_digit(c1, first[3] as int, dims[0] * dims[1] * dims[2], dims[3] as int);
    lemma_digit(second[0] as int, second[1] as int, dims[0] as int, dims[1] as int);
    lemma_digit(b2, second[2] as int, dims[0] * dims[1], dims[2] as int);
    lemma_digit(c2, second[3] as int, dims[0] * dims[1] * dims[2], dims[3] as int);
    assert(c1 == c2);
    assert(b1 == b2);
    assert(first[0] == second[0]);
    assert(first@ =~= second@);
}

/// The indices of the component at a place, for a shape without an empty
/// extent.
pub open spec fn unflat(dims: [usize; 4], place: int) -> Seq<int> {
    seq![
        place / (dims[3] as int) / (dims[2] as int) / (dims[1] as int),
        place / (dims[3] as int) / (dims[2] as int) % (dims[1] as int),
        place / (dims[3] as int) % (dims[2] as int),
        place % (dims[3] as int),
    ]
}

/// A shape whose size fits the machine.
#[derive(Clone, Copy, Debug)]
pub struct Shape {
    dims: [usize; 4],
    len: usize,
}

impl Shape {
    /// What a shape has to fulfil to be held.
    #[verifier::type_invariant]
    pub closed spec fn wf(&self) -> bool {
        self.len == size(self.dims)
    }

    /// The four extents.
    pub closed spec fn view(&self) -> [usize; 4] {
        self.dims
    }

    /// The shape with the given extents, if the number of its components
    /// fits the machine.
    pub fn new(dims: [usize; 4]) -> (outcome: Option<Shape>)
        ensures
            outcome is Some <==> size(dims) <= usize::MAX,
            outcome matches Some(shape) ==> shape@ == dims,
    {
        let d0: usize = dims[0];
        let d1: usize = dims[1];
        let d2: usize = dims[2];
        let d3: usize = dims[3];
        if d0 == 0 || d1 == 0 || d2 == 0 || d3 == 0 {
            assert(size(dims) == 0) by (nonlinear_arith)
                requires
                    dims[0] == 0 || dims[1] == 0 || dims[2] == 0 || dims[3] == 0,
                    size(dims) == dims[0] * dims[1] * dims[2] * dims[3],
            ;
            return Some(Shape { dims, len: 0 });
        }
        assert(d0 * d1 <= d0 * d1 * d2 <= d0 * d1 * d2 * d3) by (nonlinear_arith)
            requires
                d0 >= 1,
                d1 >= 1,
                d2 >= 1,
                d3 >= 1,
        ;
        let Some(p01) = d0.checked_mul(d1) else {
            return None;
        };
        let Some(p012) = p01.checked_mul(d2) else {
            return None;
        };
        let Some(len) = p012.checked_mul(d3) else {
            return None;
        };
        Some(Shape { dims, len })
    }

    /// The shape of a rank-4 tensor in three dimensions.
    pub fn tensor() -> (shape: Shape)
        ensures
            shape@[0] == 3 && shape@[1] == 3 && shape@[2] == 3 && shape@[3] == 3,
            size(shape@) == 81,
    {
        let dims: [usize; 4] = [3, 3, 3, 3];
        assert(size(dims) == 81) by (nonlinear_arith)
            requires
                size(dims) == dims[0] * dims[1] * dims[2] * dims[3],
                dims[0] == 3,
                dims[1] == 3,
                dims[2] == 3,
                dims[3] == 3,
        ;
        Shape { dims, len: 81 }
    }

    /// The shape of the stiffnesses of a block: one 3 x 3 part for each pair
    /// of nodes. There is none if its size does not fit the machine.
    pub fn stiffnesses(nodes: usize) -> (outcome: Option<Shape>)
        ensures
            outcome is Some <==> 9 * nodes * nodes <= usize::MAX,
            outcome matches Some(shape) ==> shape@[0] == nodes && shape@[1] == nodes && shape@[2]
                == 3 && shape@[3] == 3 && size(shape@) == 9 * nodes * nodes,
    {
        let dims: [usize; 4] = [nodes, nodes, 3, 3];
        assert(size(dims) == 9 * nodes * nodes) by (nonlinear_arith)
            requires
                size(dims) == dims[0] * dims[1] * dims[2] * dims[3],
                dims[0] == nodes,
                dims[1] == nodes,
                dims[2] == 3,
                dims[3] == 3,
        ;
        Shape::new(dims)
    }

    /// The four extents.
    pub fn dims(&self) -> (dims: [usize; 4])
        ensures
            dims == self@,
    {
        self.dims
    }

    /// The number of components.
    pub fn len(&self) -> (count: usize)
        ensures
            count == size(self@),
    {
        proof {
            use_type_invariant(self);
        }
        self.len
    }

    /// Whether a buffer of `count` components fills the shape exactly.
    pub fn holds(&self, count: usize) -> (fits: bool)
        ensures
            fits == (count == size(self@)),
    {
        proof {
            use_type_invariant(self);
        }
        count == self.len
    }

    /// The place of a component in the flat buffer; none for an index beyond
    /// an extent.
    pub fn offset(&self, index: [usize; 4]) -> (place: Option<usize>)
        ensures
            place is Some <==> within(self@, index),
            place matches Some(p) ==> p == flat(self@, index) && p < size(self@),
    {
        let dims = self.dims;
        if !(index[0] < dims[0] && index[1] < dims[1] && index[2] < dims[2] && index[3]
            < dims[3]) {
            return None;
        }
        proof {
            use_type_invariant(self);
            lemma_flat_in_range(dims, index);
            let a = index[0] as int;
            lemma_digit(a, index[1] as int, dims[0] as int, dims[1] as int);
            let b = a * dims[1] + index[1];
            lemma_digit(b, index[2] as int, dims[0] * dims[1], dims[2] as int);
            let c = b * dims[2] + index[2];
            lemma_digit(c, index[3] as int, dims[0] * dims[1] * dims[2], dims[3] as int);
            assert(dims[0] * dims[1] <= dims[0] * dims[1] * dims[2] <= size(dims))
                by (nonlinear_arith)
                requires
                    dims[2] >= 1,
                    dims[3] >= 1,
                    size(dims) == dims[0] * dims[1] * dims[2] * dims[3],
            ;
        }
        let b: usize = index[0] * dims[1] + index[1];
        let c: usize = b * dims[2] + index[2];
        Some(c * dims[3] + index[3])
    }

    /// The component that lies at a place; none for a place beyond the end.
    pub fn index(&self, place: usize) -> (index: Option<[usize; 4]>)
        ensures
            index is Some <==> place < size(self@),
            index matches Some(i) ==> within(self@, i) && flat(self@, i) == place
                && i@.map_values(|x: usize| x as int) == unflat(self@, place as int),
    {
        proof {
            use_type_invariant(self);
        }
        if place >= self.len {
            return None;
        }
        let dims = self.dims;
        proof {
            if dims[0] == 0 || dims[1] == 0 || dims[2] == 0 || dims[3] == 0 {
                assert(size(dims) == 0) by (nonlinear_arith)
                    requires
                        dims[0] == 0 || dims[1] == 0 || dims[2] == 0 || dims[3] == 0,
                        size(dims) == dims[0] * dims[1] * dims[2] * dims[3],
                ;
            }
            lemma_split(place as int, dims[0] * dims[1] * dims[2], dims[3] as int);
            lemma_split(place as int / (dims[3] as int), dims[0] * dims[1], dims[2] as int);
            lemma_split(
                place as int / (dims[3] as int) / (dims[2] as int),
                dims[0] as int,
                dims[1] as int,
            );
        }
        let l: usize = place % dims[3];
        let c: usize = place / dims[3];
        let k: usize = c % dims[2];
        let b: usize = c / dims[2];
        let j: usize = b % dims[1];
        let i: usize = b / dims[1];
        let found: [usize; 4] = [i, j, k, l];
        assert(found@.map_values(|x: usize| x as int) =~= unflat(dims, place as int));
        Some(found)
    }
}

/// The component read off a place lies at that place.
pub proof fn lemma_unflat_flat(dims: [usize; 4], place: int)
    requires
        0 <= place < size(dims),
    ensures
        0 <= unflat(dims, place)[0] < dims[0],
        0 <= unflat(dims, place)[1] < dims[1],
        0 <= unflat(dims, place)[2] < dims[2],
        0 <= unflat(dims, place)[3] < dims[3],
        ((unflat(dims, place)[0] * dims[1] + unflat(dims, place)[1]) * dims[2] + unflat(
            dims,
            place,
        )[2]) * dims[3] + unflat(dims, place)[3] == place,
{
    if dims[0] == 0 || dims[1] == 0 || dims[2] == 0 || dims[3] == 0 {
        assert(size(dims) == 0) by (nonlinear_arith)
            requires
                dims[0] == 0 || dims[1] == 0 || dims[2] == 0 || dims[3] == 0,
                size(dims) == dims[0] * dims[1] * dims[2] * dims[3],
        ;
    }
    lemma_split(place, dims[0] * dims[1] * dims[2], dims[3] as int);
    lemma_split(place / (dims[3] as int), dims[0] * dims[1], dims[2] as int);
    lemma_split(place / (dims[3] as int) / (dims[2] as int), dims[0] as int, dims[1] as int);
}

/// The place of a component gives the component back.
pub proof fn lemma_flat_unflat(dims: [usize; 4], index: [usize; 4])
    requires
        within(dims, index),
    ensures
        unflat(dims, flat(dims, index)) == index@.map_values(|x: usize| x as int),
{
    let a = index[0] as int;
    lemma_digit(a, index[1] as int, dims[0] as int, dims[1] as int);
    let b = a * dims[1] + index[1];
    lemma_digit(b, index[2] as int, dims[0] * dims[1], dims[2] as int);
    let c = b * dims[2] + index[2];
    lemma_digit(c, index[3] as int, dims[0] * dims[1] * dims[2], dims[3] as int);
    assert(unflat(dims, flat(dims, index)) =~= index@.map_values(|x: usize| x as int));
}

} // verus!
