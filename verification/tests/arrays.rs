use conspire::error::Error;
use conspire::layout::Shape;
use conspire::solve::iterate;
use conspire::tensor::flatten;
use conspire::tensor::flatten_blocks;
use conspire::tensor::from_rows;
use conspire::tensor::tensor_rows;
use conspire::tensor::to_rows;
use conspire::tensor::transpose;

#[test]
fn shape_of_a_rank_four_tensor() {
    let shape = Shape::tensor();
    assert_eq!(shape.dims(), [3, 3, 3, 3]);
    assert_eq!(shape.len(), 81);
    assert!(shape.holds(81));
    assert!(!shape.holds(80));
    assert!(!shape.holds(27));
    assert_eq!(shape.offset([0, 0, 0, 0]), Some(0));
    assert_eq!(shape.offset([0, 0, 0, 1]), Some(1));
    assert_eq!(shape.offset([0, 0, 1, 0]), Some(3));
    assert_eq!(shape.offset([0, 1, 0, 0]), Some(9));
    assert_eq!(shape.offset([1, 0, 0, 0]), Some(27));
    assert_eq!(shape.offset([2, 1, 0, 2]), Some(65));
    assert_eq!(shape.offset([2, 2, 2, 2]), Some(80));
    assert_eq!(shape.offset([3, 0, 0, 0]), None);
    assert_eq!(shape.offset([0, 0, 0, 3]), None);
    assert_eq!(shape.index(65), Some([2, 1, 0, 2]));
    assert_eq!(shape.index(80), Some([2, 2, 2, 2]));
    assert_eq!(shape.index(81), None);
}

#[test]
fn places_and_indices_are_inverse() {
    let shape = Shape::new([2, 5, 3, 4]).unwrap();
    assert_eq!(shape.len(), 120);
    for place in 0..120 {
        let index = shape.index(place).unwrap();
        assert_eq!(shape.offset(index), Some(place));
    }
    let mut next = 0;
    for i in 0..2 {
        for j in 0..5 {
            for k in 0..3 {
                for l in 0..4 {
                    assert_eq!(shape.offset([i, j, k, l]), Some(next));
                    assert_eq!(shape.index(next), Some([i, j, k, l]));
                    next += 1;
                }
            }
        }
    }
    assert_eq!(shape.index(120), None);
}

#[test]
fn shape_with_an_empty_extent() {
    let shape = Shape::new([usize::MAX, usize::MAX, 0, 7]).unwrap();
    assert_eq!(shape.len(), 0);
    assert!(shape.holds(0));
    assert_eq!(shape.index(0), None);
    assert_eq!(shape.offset([0, 0, 0, 0]), None);
}

#[test]
fn shape_too_large_for_the_machine() {
    assert!(Shape::new([usize::MAX, 2, 1, 1]).is_none());
    assert!(Shape::new([1, usize::MAX, 1, 2]).is_none());
    assert!(Shape::new([1, 1, usize::MAX, 1]).is_some());
    assert!(Shape::stiffnesses(usize::MAX).is_none());
    assert!(Shape::stiffnesses(usize::MAX / 2).is_none());
}

#[test]
fn shape_of_the_stiffnesses() {
    let shape = Shape::stiffnesses(4).unwrap();
    assert_eq!(shape.dims(), [4, 4, 3, 3]);
    assert_eq!(shape.len(), 144);
    assert_eq!(shape.offset([1, 2, 1, 0]), Some(((1 * 4 + 2) * 3 + 1) * 3));
    let none = Shape::stiffnesses(0).unwrap();
    assert_eq!(none.len(), 0);
}

#[test]
fn transpose_swaps_the_indices() {
    let tensor = [[1.0, 2.0, 3.0], [4.0, 5.0, 6.0], [7.0, 8.0, 9.0]];
    let turned = transpose(&tensor);
    assert_eq!(turned, [[1.0, 4.0, 7.0], [2.0, 5.0, 8.0], [3.0, 6.0, 9.0]]);
    assert_eq!(transpose(&turned), tensor);
}

#[test]
fn from_rows_wants_three_by_three() {
    let rows = vec![vec![1.5, 0.0, 0.25], vec![0.0, 1.0, 0.0], vec![0.0, -0.5, 2.0]];
    assert_eq!(
        from_rows(&rows),
        Some([[1.5, 0.0, 0.25], [0.0, 1.0, 0.0], [0.0, -0.5, 2.0]])
    );
    let short = vec![vec![1.0, 0.0, 0.0], vec![0.0, 1.0, 0.0]];
    assert_eq!(from_rows(&short), None);
    let ragged = vec![vec![1.0, 0.0, 0.0], vec![0.0, 1.0], vec![0.0, 0.0, 1.0]];
    assert_eq!(from_rows(&ragged), None);
    let wide = vec![vec![1.0, 0.0, 0.0], vec![0.0, 1.0, 0.0], vec![0.0, 0.0, 1.0, 0.0]];
    assert_eq!(from_rows(&wide), None);
    let long = vec![vec![1.0, 0.0, 0.0]; 4];
    assert_eq!(from_rows(&long), None);
    let empty: Vec<Vec<f64>> = vec![];
    assert_eq!(from_rows(&empty), None);
}

#[test]
fn rows_of_a_tensor_and_back() {
    let tensor = [[1, 2, 3], [4, 5, 6], [7, 8, 9]];
    let rows = tensor_rows(&tensor);
    assert_eq!(rows, vec![vec![1, 2, 3], vec![4, 5, 6], vec![7, 8, 9]]);
    assert_eq!(from_rows(&rows), Some(tensor));
}

#[test]
fn rows_of_nodal_forces() {
    let forces = vec![[0.0, 0.0, 0.0]; 4];
    let rows = to_rows(&forces);
    assert_eq!(rows.len(), 4);
    assert!(rows.iter().all(|row| row == &vec![0.0, 0.0, 0.0]));
    let mixed = vec![[1.0, 2.0, 3.0], [-1.0, -2.0, -3.0]];
    assert_eq!(to_rows(&mixed), vec![vec![1.0, 2.0, 3.0], vec![-1.0, -2.0, -3.0]]);
    let none: Vec<[f64; 3]> = vec![];
    assert!(to_rows(&none).is_empty());
}

#[test]
fn flatten_runs_the_last_index_fastest() {
    let mut tensor = [[[[0usize; 3]; 3]; 3]; 3];
    for i in 0..3 {
        for j in 0..3 {
            for k in 0..3 {
                for l in 0..3 {
                    tensor[i][j][k][l] = 1000 * i + 100 * j + 10 * k + l;
                }
            }
        }
    }
    let buffer = flatten(&tensor);
    assert_eq!(buffer.len(), 81);
    assert_eq!(buffer[0], 0);
    assert_eq!(buffer[1], 1);
    assert_eq!(buffer[3], 10);
    assert_eq!(buffer[9], 100);
    assert_eq!(buffer[27], 1000);
    assert_eq!(buffer[80], 2222);
    let shape = Shape::tensor();
    for (place, &value) in buffer.iter().enumerate() {
        let [i, j, k, l] = shape.index(place).unwrap();
        assert_eq!(value, 1000 * i + 100 * j + 10 * k + l);
    }
}

#[test]
fn flatten_blocks_one_after_another() {
    let blocks = vec![
        [[1, 2, 3], [4, 5, 6], [7, 8, 9]],
        [[11, 12, 13], [14, 15, 16], [17, 18, 19]],
    ];
    let buffer = flatten_blocks(&blocks).unwrap();
    assert_eq!(
        buffer,
        vec![1, 2, 3, 4, 5, 6, 7, 8, 9, 11, 12, 13, 14, 15, 16, 17, 18, 19]
    );
    let none: Vec<[[f64; 3]; 3]> = vec![];
    assert_eq!(flatten_blocks(&none), Some(vec![]));
}

#[test]
fn flattened_pairs_lie_as_the_stiffness_shape_says() {
    let nodes = 3;
    let mut blocks = vec![[[0usize; 3]; 3]; nodes * nodes];
    for row in 0..nodes {
        for column in 0..nodes {
            for i in 0..3 {
                for j in 0..3 {
                    blocks[row * nodes + column][i][j] = 1000 * row + 100 * column + 10 * i + j;
                }
            }
        }
    }
    let buffer = flatten_blocks(&blocks).unwrap();
    let shape = Shape::stiffnesses(nodes).unwrap();
    assert!(shape.holds(buffer.len()));
    for (place, &value) in buffer.iter().enumerate() {
        let [row, column, i, j] = shape.index(place).unwrap();
        assert_eq!(value, 1000 * row + 100 * column + 10 * i + j);
    }
}

#[test]
fn iterate_stops_at_the_first_good_iterate() {
    let root = iterate(
        1.0,
        50,
        |x: &f64| (x * x - 2.0).abs() < 1.0e-12,
        |x: f64| 0.5 * (x + 2.0 / x),
    );
    let root = root.unwrap();
    assert!((root - 2.0f64.sqrt()).abs() < 1.0e-12);
    let steps = iterate(0u32, 10, |n: &u32| *n == 7, |n: u32| n + 1);
    assert_eq!(steps, Ok(7));
}

#[test]
fn iterate_judges_the_guess_first() {
    let calls = std::cell::Cell::new(0);
    let root = iterate(
        3.5,
        0,
        |_x: &f64| true,
        |x: f64| {
            calls.set(calls.get() + 1);
            x + 1.0
        },
    );
    assert_eq!(root, Ok(3.5));
    assert_eq!(calls.get(), 0);
}

#[test]
fn iterate_fails_when_the_steps_run_out() {
    let calls = std::cell::Cell::new(0);
    let outcome = iterate(
        0u32,
        5,
        |n: &u32| *n == 6,
        |n: u32| {
            calls.set(calls.get() + 1);
            n + 1
        },
    );
    assert_eq!(outcome, Err(Error::NumericalNonconvergence));
    assert_eq!(calls.get(), 5);
    let at_the_limit = iterate(0u32, 5, |n: &u32| *n == 5, |n: u32| n + 1);
    assert_eq!(at_the_limit, Ok(5));
    let none = iterate(0u32, 0, |_n: &u32| false, |n: u32| n + 1);
    assert_eq!(none, Err(Error::NumericalNonconvergence));
}
