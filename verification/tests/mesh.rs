use conspire::assembly::accumulate;
use conspire::incidence::incidence;
use conspire::assembly::scatter_add;
use conspire::assembly::scatter_add_pairs;
use conspire::block::evaluate;
use conspire::block::Block;
use conspire::connectivity::check_element;
use conspire::connectivity::Connectivity;
use conspire::error::Error;
use conspire::model::ModelKind;

#[test]
fn single_tetrahedron_is_accepted() {
    let table = Connectivity::new(vec![[0, 1, 2, 3]], 4).unwrap();
    assert_eq!(table.len(), 1);
    assert_eq!(table.number_of_nodes(), 4);
    assert_eq!(table.element(0), [0, 1, 2, 3]);
    for corner in 0..4 {
        assert_eq!(table.node(0, corner), corner);
    }
}

#[test]
fn empty_table_is_accepted() {
    let table = Connectivity::new(vec![], 0).unwrap();
    assert_eq!(table.len(), 0);
    assert_eq!(table.number_of_nodes(), 0);
}

#[test]
fn node_out_of_range_is_refused() {
    let outcome = Connectivity::new(vec![[0, 1, 2, 4]], 4);
    assert_eq!(outcome.unwrap_err(), Error::InvalidConnectivity);
    let later = Connectivity::new(vec![[0, 1, 2, 3], [1, 2, 3, 7]], 5);
    assert_eq!(later.unwrap_err(), Error::InvalidConnectivity);
}

#[test]
fn repeated_node_is_refused() {
    let outcome = Connectivity::new(vec![[0, 1, 2, 2]], 4);
    assert_eq!(outcome.unwrap_err(), Error::InvalidConnectivity);
    let ends = Connectivity::new(vec![[3, 1, 2, 3]], 4);
    assert_eq!(ends.unwrap_err(), Error::InvalidConnectivity);
}

#[test]
fn check_element_by_cases() {
    assert!(check_element(&[0, 1, 2, 3], 4));
    assert!(check_element(&[9, 4, 0, 2], 10));
    assert!(!check_element(&[0, 1, 2, 3], 3));
    assert!(!check_element(&[0, 1, 2, 3], 0));
    assert!(!check_element(&[1, 1, 2, 3], 4));
    assert!(!check_element(&[0, 1, 3, 3], 4));
    assert!(!check_element(&[0, 2, 2, 3], 4));
    assert!(!check_element(&[0, 1, 2, 0], 4));
    assert!(!check_element(&[0, 1, 0, 3], 4));
    assert!(!check_element(&[0, 3, 2, 3], 4));
}

#[test]
fn gather_picks_the_values_of_the_corners() {
    let table = Connectivity::new(vec![[0, 1, 2, 3], [4, 2, 1, 3]], 5).unwrap();
    let values = vec![10.5, 11.5, 12.5, 13.5, 14.5];
    assert_eq!(table.gather(0, &values), [10.5, 11.5, 12.5, 13.5]);
    assert_eq!(table.gather(1, &values), [14.5, 12.5, 11.5, 13.5]);
    let coordinates = vec![[0.0, 0.0, 0.0], [1.0, 0.0, 0.0], [0.0, 1.0, 0.0], [0.0, 0.0, 1.0], [1.0, 1.0, 1.0]];
    assert_eq!(
        table.gather(1, &coordinates),
        [[1.0, 1.0, 1.0], [0.0, 1.0, 0.0], [1.0, 0.0, 0.0], [0.0, 0.0, 1.0]]
    );
}

#[test]
fn incidence_of_a_single_tetrahedron() {
    let table = Connectivity::new(vec![[0, 1, 2, 3]], 4).unwrap();
    let lists = incidence(&table);
    assert_eq!(
        lists,
        vec![vec![(0, 0)], vec![(0, 1)], vec![(0, 2)], vec![(0, 3)]]
    );
}

#[test]
fn incidence_of_two_tetrahedra_sharing_a_face() {
    let table = Connectivity::new(vec![[0, 1, 2, 3], [4, 2, 1, 3]], 6).unwrap();
    let lists = incidence(&table);
    assert_eq!(
        lists,
        vec![
            vec![(0, 0)],
            vec![(0, 1), (1, 2)],
            vec![(0, 2), (1, 1)],
            vec![(0, 3), (1, 3)],
            vec![(1, 0)],
            vec![],
        ]
    );
}

#[test]
fn incidence_lists_every_corner_once() {
    let elements = vec![[0, 1, 2, 3], [4, 2, 1, 3], [5, 4, 1, 3], [0, 5, 4, 2]];
    let table = Connectivity::new(elements.clone(), 6).unwrap();
    let lists = incidence(&table);
    let mut seen = 0;
    for (node, list) in lists.iter().enumerate() {
        for &(element, corner) in list {
            assert_eq!(elements[element][corner], node);
            seen += 1;
        }
        for pair in list.windows(2) {
            assert!(pair[0].0 < pair[1].0);
        }
    }
    assert_eq!(seen, 4 * elements.len());
}

#[test]
fn block_of_a_single_tetrahedron() {
    let block = Block::new(ModelKind::NeoHookean, vec![[0, 1, 2, 3]], 4).unwrap();
    assert_eq!(block.kind(), ModelKind::NeoHookean);
    assert_eq!(block.len(), 1);
    assert_eq!(block.number_of_nodes(), 4);
    assert_eq!(block.connectivity().element(0), [0, 1, 2, 3]);
    assert!(block.accepts(4));
    assert!(!block.accepts(3));
    assert!(!block.accepts(5));
    assert_eq!(block.require_energy(), Ok(()));
}

#[test]
fn block_refuses_a_degenerate_element() {
    let outcome = Block::new(ModelKind::NeoHookean, vec![[0, 1, 1, 3]], 4);
    assert_eq!(outcome.unwrap_err(), Error::InvalidConnectivity);
    let outside = Block::new(ModelKind::Gent, vec![[0, 1, 2, 3]], 3);
    assert_eq!(outside.unwrap_err(), Error::InvalidConnectivity);
}

#[test]
fn elastic_block_has_no_energy() {
    let block = Block::new(ModelKind::AlmansiHamel, vec![[0, 1, 2, 3]], 4).unwrap();
    assert_eq!(block.require_energy(), Err(Error::UnsupportedCapability));
    assert_eq!(
        block.require_energy().unwrap_err().message(),
        "The Helmholtz free energy density is undefined for elastic constitutive models."
    );
}

#[test]
fn stiffness_shape_of_a_block() {
    let block = Block::new(ModelKind::NeoHookean, vec![[0, 1, 2, 3], [4, 2, 1, 3]], 5).unwrap();
    let shape = block.stiffness_shape().unwrap();
    assert_eq!(shape.dims(), [5, 5, 3, 3]);
    assert_eq!(shape.len(), 225);
}

#[test]
fn scatter_add_of_whole_numbers() {
    let table = Connectivity::new(vec![[0, 1, 2, 3], [4, 2, 1, 3]], 6).unwrap();
    let parts = vec![[1, 10, 100, 1000], [5, 50, 500, 5000]];
    let totals = scatter_add(&table, &parts, 0, |sum: i64, part: i64| sum + part);
    assert_eq!(totals, vec![1, 510, 150, 6000, 5, 0]);
}

#[test]
fn scatter_add_keeps_the_order_of_the_table() {
    let table = Connectivity::new(vec![[0, 1, 2, 3], [3, 2, 1, 0], [1, 0, 3, 2]], 4).unwrap();
    let parts = vec![["a", "b", "c", "d"], ["e", "f", "g", "h"], ["i", "j", "k", "l"]];
    let totals = scatter_add(&table, &parts, "", |sum: &str, part: &str| {
        let joined: &'static str = Box::leak(format!("{sum}{part}").into_boxed_str());
        joined
    });
    assert_eq!(totals, vec!["ahj", "bgi", "cfl", "dek"]);
}

#[test]
fn scatter_add_of_nothing_gives_zeros() {
    let table = Connectivity::new(vec![], 3).unwrap();
    let parts: Vec<[f64; 4]> = vec![];
    let totals = scatter_add(&table, &parts, 0.0, |sum: f64, part: f64| sum + part);
    assert_eq!(totals, vec![0.0, 0.0, 0.0]);
}

#[test]
fn forces_of_a_single_tetrahedron_at_rest() {
    let table = Connectivity::new(vec![[0, 1, 2, 3]], 4).unwrap();
    let parts = vec![[[0.0; 3]; 4]];
    let totals = scatter_add(&table, &parts, [0.0; 3], |sum: [f64; 3], part: [f64; 3]| {
        [sum[0] + part[0], sum[1] + part[1], sum[2] + part[2]]
    });
    assert_eq!(totals.len(), 4);
    assert!(totals.iter().all(|force| force == &[0.0, 0.0, 0.0]));
}

#[test]
fn forces_add_up_over_shared_nodes() {
    let table = Connectivity::new(vec![[0, 1, 2, 3], [4, 2, 1, 3]], 5).unwrap();
    let parts = vec![
        [[1.0, 0.0, 0.0], [0.0, 1.0, 0.0], [0.0, 0.0, 1.0], [-1.0, -1.0, -1.0]],
        [[0.5, 0.5, 0.5], [0.25, 0.0, 0.0], [0.0, 0.25, 0.0], [0.0, 0.0, 0.25]],
    ];
    let totals = scatter_add(&table, &parts, [0.0; 3], |sum: [f64; 3], part: [f64; 3]| {
        [sum[0] + part[0], sum[1] + part[1], sum[2] + part[2]]
    });
    assert_eq!(
        totals,
        vec![
            [1.0, 0.0, 0.0],
            [0.0, 1.25, 0.0],
            [0.25, 0.0, 1.0],
            [-1.0, -1.0, -0.75],
            [0.5, 0.5, 0.5],
        ]
    );
}

#[test]
fn scatter_add_pairs_of_whole_numbers() {
    let table = Connectivity::new(vec![[0, 1, 2, 3], [4, 2, 1, 3]], 5).unwrap();
    let mut parts = vec![[[0i64; 4]; 4]; 2];
    for e in 0..2 {
        for a in 0..4 {
            for b in 0..4 {
                parts[e][a][b] = 100 * (e as i64 + 1) + 10 * a as i64 + b as i64;
            }
        }
    }
    let totals = scatter_add_pairs(&table, &parts, 0, |sum: i64, part: i64| sum + part).unwrap();
    assert_eq!(totals.len(), 25);
    let elements = [[0, 1, 2, 3], [4, 2, 1, 3]];
    for row in 0..5 {
        for column in 0..5 {
            let mut expected = 0;
            for e in 0..2 {
                for a in 0..4 {
                    for b in 0..4 {
                        if elements[e][a] == row && elements[e][b] == column {
                            expected += parts[e][a][b];
                        }
                    }
                }
            }
            assert_eq!(totals[row * 5 + column], expected);
        }
    }
    assert_eq!(totals[0], 100);
    assert_eq!(totals[1 * 5 + 2], 112 + 221);
    assert_eq!(totals[4 * 5 + 3], 203);
    assert_eq!(totals[0 * 5 + 4], 0);
}

#[test]
fn scatter_add_pairs_keeps_the_order_of_the_table() {
    let table = Connectivity::new(vec![[0, 1, 2, 3], [1, 0, 3, 2]], 4).unwrap();
    let mut parts = vec![[[0usize; 4]; 4]; 2];
    for e in 0..2 {
        for a in 0..4 {
            for b in 0..4 {
                parts[e][a][b] = 1 + e;
            }
        }
    }
    let totals =
        scatter_add_pairs(&table, &parts, 0, |sum: usize, part: usize| 10 * sum + part).unwrap();
    assert_eq!(totals.len(), 16);
    assert!(totals.iter().all(|&total| total == 12));
}

#[test]
fn accumulate_adds_in_order() {
    let total = accumulate(&vec![1.5, 2.5, 4.0], 0.0, |sum: f64, part: f64| sum + part);
    assert_eq!(total, 8.0);
    let digits = accumulate(&vec![1, 2, 3], 0, |sum: u32, part: u32| 10 * sum + part);
    assert_eq!(digits, 123);
    let none: Vec<f64> = vec![];
    assert_eq!(accumulate(&none, 0.0, |sum: f64, part: f64| sum + part), 0.0);
}

#[test]
fn evaluate_hands_out_all_values() {
    let outcome = evaluate(4, |e: usize| Ok::<f64, Error>(0.5 * e as f64));
    assert_eq!(outcome, Ok(vec![0.0, 0.5, 1.0, 1.5]));
    let none = evaluate(0, |_e: usize| Err::<f64, Error>(Error::InvalidDeformation));
    assert_eq!(none, Ok(vec![]));
}

#[test]
fn evaluate_ends_at_the_first_failure() {
    let calls = std::cell::Cell::new(0);
    let outcome = evaluate(5, |e: usize| {
        calls.set(calls.get() + 1);
        if e == 2 {
            Err(Error::InvalidDeformation)
        } else if e == 3 {
            Err(Error::SingularTensor)
        } else {
            Ok(e)
        }
    });
    assert_eq!(outcome, Err(Error::InvalidDeformation));
    assert_eq!(calls.get(), 3);
}
