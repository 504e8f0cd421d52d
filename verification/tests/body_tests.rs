use evolver::body::adapter::{Adapter, ProofAction};
use evolver::body::decoder::{materialize_path, unfold_path};
use evolver::body::homology::{betti_numbers_of_skeleton, compute_rank_z2, count_connected_components};
use evolver::body::projection::{project_to_digit, Projector};
use std::collections::hash_map::DefaultHasher;
use std::hash::{Hash, Hasher};
use evolver::body::skeleton::{dmatrix_filled, dmatrix_get, dmatrix_set};
use evolver::body::topology::{topology_penalty, TopologicalSignature, VPuNNConfig};
use evolver::soul::algebra::{IdealClass, Quaternion};

#[test]
fn adapt_dispatches_on_the_euclidean_remainder() {
    let adapter = Adapter::new(4);
    assert_eq!(adapter.adapt(4, 0), ProofAction::Assert("IsEven".to_string()));
    assert_eq!(adapter.adapt(4, 1), ProofAction::Assert("IsOdd".to_string()));
    assert_eq!(adapter.adapt(8, u64::MAX), ProofAction::Assert("IsOdd".to_string()));
    assert_eq!(adapter.adapt(1, 0), ProofAction::Transform("Increment".to_string()));
    assert_eq!(adapter.adapt(5, 0), ProofAction::Transform("Increment".to_string()));
    assert_eq!(adapter.adapt(2, 0), ProofAction::Check("TypeMatch".to_string()));
    assert_eq!(adapter.adapt(3, 0), ProofAction::NoOp);
    // negative raw values land in the same table: -3 rem_euclid 4 = 1
    assert_eq!(adapter.adapt(-3, 0), ProofAction::Transform("Increment".to_string()));
    assert_eq!(adapter.adapt(-4, 0), ProofAction::Assert("IsEven".to_string()));
    assert_eq!(adapter.adapt(-4, 3), ProofAction::Assert("IsOdd".to_string()));
    assert_eq!(adapter.adapt(-2, 0), ProofAction::Check("TypeMatch".to_string()));
    assert_eq!(adapter.adapt(-1, 0), ProofAction::NoOp);
    // the sum with the seed is formed only on the parity branch
    assert_eq!(adapter.adapt(i64::MAX, 1), ProofAction::NoOp);
    assert_eq!(adapter.adapt(i64::MAX - 2, u64::MAX), ProofAction::Transform("Increment".to_string()));
    assert_eq!(adapter.adapt(i64::MIN + 2, u64::MAX), ProofAction::Check("TypeMatch".to_string()));
}

#[test]
fn structural_evenness_of_negative_numbers() {
    assert!(Adapter::is_structurally_even(0));
    assert!(Adapter::is_structurally_even(-4));
    assert!(!Adapter::is_structurally_even(-5));
    assert!(!Adapter::is_structurally_even(7));
    assert!(Adapter::is_structurally_even(i64::MIN));
}

#[test]
fn exact_projection_is_a_digit_and_deterministic() {
    let p = Projector::new(7);
    let s = IdealClass::from_hash("context", 37);
    for t in 0..20u64 {
        let d = p.project_exact(&s, t);
        assert!(d < 7);
        assert_eq!(d, p.project_exact(&s, t));
    }
    assert_eq!(project_to_digit(&s, 7), p.project_exact(&s, 0));
    let h = p.project_heuristic([1000, 0, -5], 3);
    assert!(h < 7);
    assert_eq!(h, p.project_heuristic([1000, 0, -5], 3));
}

#[test]
fn materialized_path_projects_successive_squares() {
    let s = IdealClass { value: Quaternion::new(2, 1, 0, 1), discriminator: 37 };
    let config = VPuNNConfig { depth: 4, p_base: 11 };
    let path = materialize_path(&s, &config);
    assert_eq!(path.len(), 4);
    let mut state = s;
    for digit in path.iter() {
        assert_eq!(*digit, project_to_digit(&state, 11));
        state = state.apply_hecke(&state.value);
    }
    assert!(materialize_path(&s, &VPuNNConfig { depth: 0, p_base: 11 }).is_empty());
}

#[test]
fn topology_penalty_weights_holes_above_components() {
    let a = TopologicalSignature { betti_0: 1, betti_1: 0 };
    let b = TopologicalSignature { betti_0: 3, betti_1: 2 };
    assert_eq!(topology_penalty(&a, &b), 10 * 2 + 100 * 2);
    assert_eq!(topology_penalty(&b, &a), 220);
    assert_eq!(topology_penalty(&a, &a), 0);
}

fn skeleton(n: usize, edges: &[(usize, usize)]) -> Vec<Vec<bool>> {
    let mut close = vec![vec![false; n]; n];
    for &(i, j) in edges {
        close[i][j] = true;
    }
    close
}

#[test]
fn betti_numbers_of_simple_complexes() {
    // empty cloud
    assert_eq!(betti_numbers_of_skeleton(&Vec::new()), TopologicalSignature { betti_0: 0, betti_1: 0 });
    // three isolated points
    assert_eq!(betti_numbers_of_skeleton(&skeleton(3, &[])), TopologicalSignature { betti_0: 3, betti_1: 0 });
    // a square: one component, one hole
    let square = skeleton(4, &[(0, 1), (1, 2), (2, 3), (0, 3)]);
    assert_eq!(betti_numbers_of_skeleton(&square), TopologicalSignature { betti_0: 1, betti_1: 1 });
    // a filled triangle: no hole
    let tri = skeleton(3, &[(0, 1), (1, 2), (0, 2)]);
    assert_eq!(betti_numbers_of_skeleton(&tri), TopologicalSignature { betti_0: 1, betti_1: 0 });
    // a square with a diagonal: two filled triangles, no hole
    let split = skeleton(4, &[(0, 1), (1, 2), (2, 3), (0, 3), (0, 2)]);
    assert_eq!(betti_numbers_of_skeleton(&split), TopologicalSignature { betti_0: 1, betti_1: 0 });
    // a square and a separate edge
    let two = skeleton(6, &[(0, 1), (1, 2), (2, 3), (0, 3), (4, 5)]);
    assert_eq!(betti_numbers_of_skeleton(&two), TopologicalSignature { betti_0: 2, betti_1: 1 });
    // the complete graph on four points: every cycle is filled
    let k4 = skeleton(4, &[(0, 1), (0, 2), (0, 3), (1, 2), (1, 3), (2, 3)]);
    assert_eq!(betti_numbers_of_skeleton(&k4), TopologicalSignature { betti_0: 1, betti_1: 0 });
}

#[test]
fn connected_components_by_breadth_first_search() {
    let mut adj = dmatrix_filled(5, 5, 0);
    for &(u, v) in &[(0usize, 3usize), (3, 4), (1, 2)] {
        dmatrix_set(&mut adj, u, v, 1);
        dmatrix_set(&mut adj, v, u, 1);
    }
    assert_eq!(count_connected_components(5, &adj), 2);
    assert_eq!(count_connected_components(0, &dmatrix_filled(0, 0, 0)), 0);
}

#[test]
fn gf2_rank_by_elimination() {
    // rows: 110, 011, 101 -> the third is the sum of the first two: rank 2
    let mut m = dmatrix_filled(3, 3, 0);
    for &(r, c) in &[(0usize, 0usize), (0, 1), (1, 1), (1, 2), (2, 0), (2, 2)] {
        dmatrix_set(&mut m, r, c, 1);
    }
    assert_eq!(compute_rank_z2(&mut m, 3, 3), 2);
    // the matrix is left in echelon form with a zero last row
    for c in 0..3 {
        assert_eq!(dmatrix_get(&m, 2, c), 0);
    }
    assert_eq!(dmatrix_get(&m, 0, 0), 1);
    // the identity has full rank
    let mut id = dmatrix_filled(3, 3, 0);
    for r in 0..3 {
        dmatrix_set(&mut id, r, r, 1);
    }
    assert_eq!(compute_rank_z2(&mut id, 3, 3), 3);
    let mut zero = dmatrix_filled(2, 4, 0);
    assert_eq!(compute_rank_z2(&mut zero, 2, 4), 0);
}

#[test]
fn gf2_rank_survives_row_operations() {
    // rows 1100, 0110, 1010, 0001 have rank 3 (the third is the sum of the
    // first two); exchanging rows and adding rows leaves the rank unchanged
    let cells: [[u8; 4]; 4] = [[1, 1, 0, 0], [0, 1, 1, 0], [1, 0, 1, 0], [0, 0, 0, 1]];
    let variants: [[[u8; 4]; 4]; 3] = [
        cells,
        [cells[3], cells[2], cells[1], cells[0]],
        [[1, 1, 0, 1], [1, 0, 1, 0], [0, 1, 1, 0], [0, 0, 0, 1]],
    ];
    for v in variants.iter() {
        let mut m = dmatrix_filled(4, 4, 0);
        for r in 0..4 {
            for c in 0..4 {
                dmatrix_set(&mut m, r, c, v[r][c]);
            }
        }
        assert_eq!(compute_rank_z2(&mut m, 4, 4), 3);
    }
}

fn hash_in_turn(words: &[i64], time: u64) -> u64 {
    let mut h = DefaultHasher::new();
    for w in words {
        w.hash(&mut h);
    }
    time.hash(&mut h);
    h.finish()
}

#[test]
fn projections_hash_each_value_in_turn_then_the_time() {
    let p = Projector::new(1_000_003);
    let s = IdealClass { value: Quaternion::new(5, -2, 0, 7), discriminator: 37 };
    for t in 0..5u64 {
        assert_eq!(p.project_exact(&s, t), hash_in_turn(&[5, -2, 0, 7], t) % 1_000_003);
        assert_eq!(p.project_heuristic([1000, 0, -5], t), hash_in_turn(&[1000, 0, -5], t) % 1_000_003);
    }
}

#[test]
fn unfold_path_projects_then_squares() {
    let s = IdealClass { value: Quaternion::new(2, 1, 0, 1), discriminator: 37 };
    let p = Projector::new(11);
    // instantaneous dynamics: the same state at each time
    let fast = unfold_path(&s, 11, 4, 0).unwrap();
    assert_eq!(fast.len(), 4);
    for (t, d) in fast.iter().enumerate() {
        assert_eq!(*d, p.project_exact(&s, t as u64));
    }
    // one squaring per layer
    let slow = unfold_path(&s, 11, 3, 1).unwrap();
    let mut state = s;
    for (t, d) in slow.iter().enumerate() {
        assert_eq!(*d, p.project_exact(&state, t as u64));
        state = state.apply_hecke(&state.value);
    }
    assert!(unfold_path(&s, 11, 0, 5).unwrap().is_empty());
    // the identity squares forever; a huge coefficient overflows at once
    assert_eq!(unfold_path(&IdealClass::identity(37), 5, 3, 1000).unwrap().len(), 3);
    let big = IdealClass { value: Quaternion::new(i64::MAX, 0, 0, 0), discriminator: 37 };
    assert_eq!(unfold_path(&big, 5, 3, 1), Err(0));
    // two squarings per layer: 2^7 -> 2^14 -> 2^28 -> 2^56 fit, 2^112 does not
    let two = IdealClass { value: Quaternion::new(1 << 7, 0, 0, 0), discriminator: 37 };
    assert_eq!(unfold_path(&two, 5, 3, 2), Err(1));
}
