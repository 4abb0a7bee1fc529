//! Moving the components of rank-2 and rank-4 tensors between nested and flat
//! storage. Nothing here looks at a component: the scalar type is the
//! caller's.

use vstd::prelude::*;

verus! {

/// Whether a table of rows is three rows of three components.
pub open spec fn is_three_by_three<T>(rows: Seq<Vec<T>>) -> bool {
    rows.len() == 3 && rows[0]@.len() == 3 && rows[1]@.len() == 3 && rows[2]@.len() == 3
}

/// The transpose of a rank-2 tensor.
pub fn transpose<T: Copy>(tensor: &[[T; 3]; 3]) -> (turned: [[T; 3]; 3])
    ensures
        forall|i: int, j: int| 0 <= i < 3 && 0 <= j < 3 ==> turned[i][j] == tensor[j][i],
{
    let r0 = tensor[0];
    let r1 = tensor[1];
    let r2 = tensor[2];
    let turned = [[r0[0], r1[0], r2[0]], [r0[1], r1[1], r2[1]], [r0[2], r1[2], r2[2]]];
    assert forall|i: int, j: int| 0 <= i < 3 && 0 <= j < 3 implies turned[i][j] == tensor[j][i] by {
        assert(i == 0 || i == 1 || i == 2);
        assert(j == 0 || j == 1 || j == 2);
    }
    turned
}

/// A rank-2 tensor from its rows; none unless there are three rows of three
/// components.
pub fn from_rows<T: Copy>(rows: &Vec<Vec<T>>) -> (tensor: Option<[[T; 3]; 3]>)
    ensures
        tensor is Some <==> is_three_by_three(rows@),
        tensor matches Some(t) ==> forall|i: int, j: int|
            0 <= i < 3 && 0 <= j < 3 ==> t[i][j] == rows@[i]@[j],
{
    if rows.len() != 3 {
        return None;
    }
    if rows[0].len() != 3 || rows[1].len() != 3 || rows[2].len() != 3 {
        return None;
    }
    let t = [
        [rows[0][0], rows[0][1], rows[0][2]],
        [rows[1][0], rows[1][1], rows[1][2]],
        [rows[2][0], rows[2][1], rows[2][2]],
    ];
    assert forall|i: int, j: int| 0 <= i < 3 && 0 <= j < 3 implies t[i][j] == rows@[i]@[j] by {
        assert(i == 0 || i == 1 || i == 2);
        assert(j == 0 || j == 1 || j == 2);
    }
    Some(t)
}

/// The rows of a list of vectors, one row of three components for each.
pub fn to_rows<T: Copy>(vectors: &Vec<[T; 3]>) -> (rows: Vec<Vec<T>>)
    ensures
        rows@.len() == vectors@.len(),
        forall|n: int| 0 <= n < vectors@.len() ==> (#[trigger] rows@[n])@ == vectors@[n]@,
{
    let mut rows: Vec<Vec<T>> = Vec::new();
    let mut n: usize = 0;
    while n < vectors.len()
        invariant
            n <= vectors@.len(),
            rows@.len() == n,
            forall|m: int| 0 <= m < n ==> (#[trigger] rows@[m])@ == vectors@[m]@,
        decreases vectors@.len() - n,
    {
        let v = vectors[n];
        let mut row: Vec<T> = Vec::new();
        row.push(v[0]);
        row.push(v[1]);
        row.push(v[2]);
        assert(row@ =~= v@);
        rows.push(row);
        n += 1;
    }
    rows
}

/// The rows of a rank-2 tensor.
pub fn tensor_rows<T: Copy>(tensor: &[[T; 3]; 3]) -> (rows: Vec<Vec<T>>)
    ensures
        is_three_by_three(rows@),
        forall|i: int| 0 <= i < 3 ==> (#[trigger] rows@[i])@ == tensor[i]@,
{
    let mut list: Vec<[T; 3]> = Vec::new();
    list.push(tensor[0]);
    list.push(tensor[1]);
    list.push(tensor[2]);
    let rows = to_rows(&list);
    assert(rows@[0]@ == tensor[0]@);
    assert(rows@[1]@ == tensor[1]@);
    assert(rows@[2]@ == tensor[2]@);
    rows
}

/// The components of a rank-4 tensor in one buffer, the last index running
/// fastest.
pub fn flatten<T: Copy>(tensor: &[[[[T; 3]; 3]; 3]; 3]) -> (buffer: Vec<T>)
    ensures
        buffer@.len() == 81,
        forall|i: int, j: int, k: int, l: int|
            0 <= i < 3 && 0 <= j < 3 && 0 <= k < 3 && 0 <= l < 3 ==> #[trigger] buffer@[27 * i + 9
                * j + 3 * k + l] == tensor[i][j][k][l],
{
    let mut buffer: Vec<T> = Vec::new();
    let mut place: usize = 0;
    while place < 81
        invariant
            place <= 81,
            buffer@.len() == place,
            forall|p: int|
                0 <= p < place ==> #[trigger] buffer@[p] == tensor[p / 27][p / 9 % 3][p / 3 % 3][p
                    % 3],
        decreases 81 - place,
    {
        let i: usize = place / 27;
        let j: usize = place / 9 % 3;
        let k: usize = place / 3 % 3;
        let l: usize = place % 3;
        buffer.push(tensor[i][j][k][l]);
        place += 1;
    }
    assert forall|i: int, j: int, k: int, l: int|
        0 <= i < 3 && 0 <= j < 3 && 0 <= k < 3 && 0 <= l < 3 implies #[trigger] buffer@[27 * i + 9
        * j + 3 * k + l] == tensor[i][j][k][l] by {
        let p = 27 * i + 9 * j + 3 * k + l;
        assert(p / 27 == i && p / 9 % 3 == j && p / 3 % 3 == k && p % 3 == l);
    }
    buffer
}

/// The components of a list of 3 x 3 blocks in one buffer: block after block,
/// and within a block the last index running fastest. There is none if the
/// number of components does not fit the machine.
pub fn flatten_blocks<T: Copy>(blocks: &Vec<[[T; 3]; 3]>) -> (outcome: Option<Vec<T>>)
    ensures
        outcome is Some <==> 9 * blocks@.len() <= usize::MAX,
        outcome matches Some(buffer) ==> {
            &&& buffer@.len() == 9 * blocks@.len()
            &&& forall|b: int, i: int, j: int|
                0 <= b < blocks@.len() && 0 <= i < 3 && 0 <= j < 3 ==> #[trigger] buffer@[9 * b + 3
                    * i + j] == blocks@[b][i][j]
        },
{
    if blocks.len() > usize::MAX / 9 {
        return None;
    }
    let mut buffer: Vec<T> = Vec::new();
    let mut b: usize = 0;
    while b < blocks.len()
        invariant
            b <= blocks@.len(),
            9 * blocks@.len() <= usize::MAX,
            buffer@.len() == 9 * b,
            forall|p: int|
                0 <= p < 9 * b ==> #[trigger] buffer@[p] == blocks@[p / 9][p / 3 % 3][p % 3],
        decreases blocks@.len() - b,
    {
        let block = blocks[b];
        let mut place: usize = 0;
        while place < 9
            invariant
                place <= 9,
                b < blocks@.len(),
                block == blocks@[b as int],
                buffer@.len() == 9 * b + place,
                forall|p: int|
                    0 <= p < 9 * b + place ==> #[trigger] buffer@[p] == blocks@[p / 9][p / 3
                        % 3][p % 3],
            decreases 9 - place,
        {
            buffer.push(block[place / 3][place % 3]);
            place += 1;
        }
        b += 1;
    }
    assert forall|b: int, i: int, j: int|
        0 <= b < blocks@.len() && 0 <= i < 3 && 0 <= j < 3 implies #[trigger] buffer@[9 * b + 3 * i
        + j] == blocks@[b][i][j] by {
        let p = 9 * b + 3 * i + j;
        assert(p / 9 == b && p / 3 % 3 == i && p % 3 == j);
    }
    Some(buffer)
}

} // verus!
