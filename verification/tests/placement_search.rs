use numerics_interp::grid::NodeGrid;
use numerics_interp::placement::{linear_placement, search_sorted, spline_placement, Placement};

fn bits(xs: &[f64]) -> Vec<u64> {
    xs.iter().map(|x| x.to_bits()).collect()
}

fn grid(xs: &[f64]) -> NodeGrid {
    NodeGrid::new(&bits(xs), xs.len()).unwrap()
}

#[test]
fn search_matches_std_binary_search() {
    let xs = [-3.0, -1.0, 0.0, 0.5, 2.0, 7.5];
    let b = bits(&xs);
    for x in [-4.0, -3.0, -2.0, -1.0, -0.0, 0.0, 0.25, 0.5, 1.0, 2.0, 5.0, 7.5, 9.0] {
        let expected = xs.binary_search_by(|v: &f64| v.partial_cmp(&x).unwrap());
        assert_eq!(search_sorted(&b, x.to_bits()), expected, "x={x}");
    }
}

#[test]
fn linear_clamp_below() {
    let g = grid(&[1.0, 2.0, 3.0]);
    assert_eq!(g.locate_linear(0.0f64.to_bits()), Some(Placement::First));
}

#[test]
fn linear_clamp_above() {
    let g = grid(&[1.0, 2.0, 3.0]);
    assert_eq!(g.locate_linear(5.0f64.to_bits()), Some(Placement::Last));
}

#[test]
fn clamps_below() {
    let g = grid(&[1.0, 2.0, 3.0]);
    assert_eq!(g.locate_spline(0.0f64.to_bits()), Some(Placement::First));
}

#[test]
fn clamps_above() {
    let g = grid(&[1.0, 2.0, 3.0]);
    assert_eq!(g.locate_spline(5.0f64.to_bits()), Some(Placement::Last));
}

#[test]
fn boundary_nodes_are_clamped() {
    let g = grid(&[1.0, 2.0, 3.0]);
    assert_eq!(g.locate_linear(1.0f64.to_bits()), Some(Placement::First));
    assert_eq!(g.locate_linear(3.0f64.to_bits()), Some(Placement::Last));
    assert_eq!(g.locate_spline(1.0f64.to_bits()), Some(Placement::First));
    assert_eq!(g.locate_spline(3.0f64.to_bits()), Some(Placement::Last));
}

#[test]
fn interior_nodes_end_linear_and_start_spline_segments() {
    let xs = [0.0, 2.0, 5.0, 10.0];
    let g = grid(&xs);
    assert_eq!(g.locate_linear(2.0f64.to_bits()), Some(Placement::Segment(0)));
    assert_eq!(g.locate_linear(5.0f64.to_bits()), Some(Placement::Segment(1)));
    assert_eq!(g.locate_spline(2.0f64.to_bits()), Some(Placement::Segment(1)));
    assert_eq!(g.locate_spline(5.0f64.to_bits()), Some(Placement::Segment(2)));
}

#[test]
fn off_node_points_share_a_segment() {
    let xs = [0.0, 1.0, 2.0, 3.0];
    let b = bits(&xs);
    for (x, i) in [(0.5, 0usize), (1.5, 1), (2.5, 2), (2.999, 2), (1e-300, 0)] {
        assert_eq!(linear_placement(&b, f64::to_bits(x)), Placement::Segment(i), "x={x}");
        assert_eq!(spline_placement(&b, f64::to_bits(x)), Placement::Segment(i), "x={x}");
    }
}

#[test]
fn placement_is_monotone_on_a_sweep() {
    let xs: Vec<f64> = (0..=10).map(|i| i as f64 * 0.3).collect();
    let g = grid(&xs);
    let rank = |p: Placement| match p {
        Placement::First => -1i64,
        Placement::Segment(i) => i as i64,
        Placement::Last => xs.len() as i64,
    };
    let mut prev_linear = -2i64;
    let mut prev_spline = -2i64;
    for k in 0..200 {
        let x = -0.5 + k as f64 * 0.02;
        let l = rank(g.locate_linear(x.to_bits()).unwrap());
        let s = rank(g.locate_spline(x.to_bits()).unwrap());
        assert!(l >= prev_linear && s >= prev_spline, "x={x}");
        prev_linear = l;
        prev_spline = s;
    }
}

#[test]
fn nan_query_has_no_placement() {
    let g = grid(&[1.0, 2.0, 3.0]);
    assert_eq!(g.locate_linear(f64::NAN.to_bits()), None);
    assert_eq!(g.locate_spline(f64::NAN.to_bits()), None);
    assert_eq!(g.locate_linear((-f64::NAN).to_bits()), None);
}

#[test]
fn infinite_queries_clamp() {
    let g = grid(&[1.0, 2.0, 3.0]);
    assert_eq!(g.locate_linear(f64::NEG_INFINITY.to_bits()), Some(Placement::First));
    assert_eq!(g.locate_spline(f64::INFINITY.to_bits()), Some(Placement::Last));
}
