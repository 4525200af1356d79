use numerics_interp::grid::NodeGrid;
use numerics_interp::nodes::{node_counts_valid, nodes_without_nan, sorted_nodes_valid};

fn bits(xs: &[f64]) -> Vec<u64> {
    xs.iter().map(|x| x.to_bits()).collect()
}

#[test]
fn linear_rejects_unsorted() {
    let xs = vec![3.0, 1.0, 2.0];
    let ys = vec![1.0, 2.0, 3.0];
    assert!(NodeGrid::new(&bits(&xs), ys.len()).is_none());
}

#[test]
fn linear_rejects_too_few() {
    assert!(NodeGrid::new(&bits(&[1.0]), 1).is_none());
    assert!(NodeGrid::new(&bits(&[]), 0).is_none());
}

#[test]
fn rejects_mismatched_lengths() {
    let xs = vec![0.0, 1.0, 2.0];
    let ys = vec![0.0, 1.0];
    assert!(NodeGrid::new(&bits(&xs), ys.len()).is_none());
}

#[test]
fn cubic_spline_rejects_unsorted() {
    let xs = vec![3.0, 1.0, 2.0];
    let ys = vec![1.0, 2.0, 3.0];
    assert!(NodeGrid::new(&bits(&xs), ys.len()).is_none());
}

#[test]
fn cubic_spline_rejects_too_few() {
    assert!(NodeGrid::new(&bits(&[1.0]), 1).is_none());
}

#[test]
fn cubic_spline_rejects_mismatched() {
    assert!(NodeGrid::new(&bits(&[0.0, 1.0]), 1).is_none());
}

#[test]
fn lagrange_rejects_too_few() {
    assert!(!node_counts_valid(1, 1));
}

#[test]
fn lagrange_rejects_mismatched() {
    assert!(!node_counts_valid(2, 1));
}

#[test]
fn barycentric_rejects_too_few() {
    assert!(!node_counts_valid(1, 1));
}

#[test]
fn counts_accept_two_or_more_matching() {
    assert!(node_counts_valid(2, 2));
    assert!(node_counts_valid(11, 11));
    assert!(!node_counts_valid(0, 0));
    assert!(!node_counts_valid(3, 4));
}

#[test]
fn equal_neighbours_are_rejected() {
    assert!(!sorted_nodes_valid(&bits(&[0.0, 1.0, 1.0, 2.0]), 4));
    // -0.0 and 0.0 are equal values
    assert!(!sorted_nodes_valid(&bits(&[-0.0, 0.0, 1.0]), 3));
}

#[test]
fn ascending_nodes_are_accepted() {
    assert!(sorted_nodes_valid(&bits(&[0.0, 2.0, 5.0, 10.0]), 4));
    assert!(sorted_nodes_valid(&bits(&[f64::NEG_INFINITY, -1.0, 0.0, f64::INFINITY]), 4));
    let g = NodeGrid::new(&bits(&[0.0, 1.0]), 2).unwrap();
    assert_eq!(g.len(), 2);
    assert_eq!(g.nodes(), &bits(&[0.0, 1.0])[..]);
}

#[test]
fn nan_nodes_are_not_sorted() {
    let xs = bits(&[0.0, f64::NAN, 2.0]);
    assert!(!sorted_nodes_valid(&xs, 3));
    assert!(NodeGrid::new(&xs, 3).is_none());
    assert!(!nodes_without_nan(&xs));
    assert!(nodes_without_nan(&bits(&[0.0, 1.0])));
}

#[test]
fn n_intervals() {
    let xs = vec![0.0, 1.0, 2.0, 3.0];
    let ys = vec![0.0, 1.0, 4.0, 9.0];
    let g = NodeGrid::new(&bits(&xs), ys.len()).unwrap();
    assert_eq!(g.n_intervals(), 3);
}
