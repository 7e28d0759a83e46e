//! Tests of the reassignment pipeline: cost model, weights, thresholding,
//! and the full optimal-transport scenario through the real solver.

use formflight::assignments::{
    binarize_coupling, cost_matrix, row_max, uniform_weights, AssignError,
};
use rust_optimal_transport::OTSolver;

#[test]
fn cost_matrix_three_on_a_line() {
    let agents = vec![vec![0i64, 0, 0], vec![1, 0, 0], vec![2, 0, 0]];
    let targets = vec![vec![0i64, 0, 0], vec![1, 0, 0], vec![2, 0, 0]];
    let cm = cost_matrix(&agents, &targets).unwrap();
    let expected = vec![vec![0u64, 1, 4], vec![1, 0, 1], vec![4, 1, 0]];
    assert_eq!(cm.entries, expected);
    // normalized by the global maximum
    assert_eq!(cm.scale, 4);
}

#[test]
fn cost_matrix_empty_population_is_an_error() {
    let empty: Vec<Vec<i64>> = Vec::new();
    let some = vec![vec![0i64, 0, 0]];
    assert_eq!(cost_matrix(&empty, &some).unwrap_err(), AssignError::EmptyPopulation);
    assert_eq!(cost_matrix(&some, &empty).unwrap_err(), AssignError::EmptyPopulation);
}

#[test]
fn cost_matrix_dimension_mismatch_is_an_error() {
    let agents = vec![vec![0i64, 0, 0], vec![1, 0]];
    let targets = vec![vec![0i64, 0, 0]];
    assert_eq!(cost_matrix(&agents, &targets).unwrap_err(), AssignError::DimensionMismatch);
    let agents2 = vec![vec![0i64, 0, 0]];
    let targets2 = vec![vec![0i64, 0]];
    assert_eq!(cost_matrix(&agents2, &targets2).unwrap_err(), AssignError::DimensionMismatch);
}

#[test]
fn cost_matrix_unrepresentable_cost_is_an_error() {
    let agents = vec![vec![i64::MAX, 0]];
    let targets = vec![vec![i64::MIN, 0]];
    assert_eq!(cost_matrix(&agents, &targets).unwrap_err(), AssignError::CostOverflow);
}

#[test]
fn colocated_populations_give_the_zero_matrix() {
    // all agents and targets at one point: costs already zero, normalization
    // skipped (denominator 1)
    let p = vec![7i64, -3, 2];
    let agents = vec![p.clone(), p.clone(), p.clone()];
    let targets = vec![p.clone(), p.clone(), p.clone()];
    let cm = cost_matrix(&agents, &targets).unwrap();
    for row in &cm.entries {
        for &e in row {
            assert_eq!(e, 0);
        }
    }
    assert_eq!(cm.scale, 1);
}

#[test]
fn uniform_weights_are_an_exact_probability_vector() {
    let w = uniform_weights(3);
    assert_eq!(w.len(), 3);
    let mut num_sum: u64 = 0;
    for m in &w {
        assert_eq!(m.num, 1);
        assert_eq!(m.den, 3);
        num_sum += m.num;
    }
    // sum of three exact thirds is exactly one
    assert_eq!(num_sum, 3);
}

#[test]
fn row_max_takes_the_greatest_entry() {
    assert_eq!(row_max(&vec![3u64, 9, 1]), 9);
    assert_eq!(row_max(&vec![4u64]), 4);
    assert_eq!(row_max(&vec![0u64, 0]), 0);
}

#[test]
fn binarize_marks_exactly_the_row_maxima_ties_included() {
    let coupling = vec![vec![3u64, 5, 5], vec![7, 1, 7], vec![0, 0, 0]];
    let b = binarize_coupling(&coupling).unwrap();
    assert_eq!(b, vec![vec![0u32, 1, 1], vec![1, 0, 1], vec![1, 1, 1]]);
    // every row has at least one positive entry
    for row in &b {
        assert!(row.iter().any(|&e| e == 1));
    }
}

#[test]
fn binarize_empty_coupling_is_an_error() {
    let no_rows: Vec<Vec<u64>> = Vec::new();
    assert_eq!(binarize_coupling(&no_rows).unwrap_err(), AssignError::EmptyPopulation);
    let empty_row = vec![vec![1u64, 2], Vec::new()];
    assert_eq!(binarize_coupling(&empty_row).unwrap_err(), AssignError::EmptyPopulation);
}

fn solve_emd(
    agents: &Vec<Vec<i64>>,
    targets: &Vec<Vec<i64>>,
) -> Vec<Vec<u64>> {
    let n = agents.len();
    let m = targets.len();
    let cm = cost_matrix(agents, targets).unwrap();
    let to_floats = |w: Vec<formflight::assignments::MassWeight>| {
        ndarray::Array1::<f64>::from_vec(w.iter().map(|x| x.num as f64 / x.den as f64).collect())
    };
    let mut source_weights = to_floats(uniform_weights(n));
    let mut target_weights = to_floats(uniform_weights(m));
    let mut cost = ndarray::Array2::<f64>::zeros((n, m));
    for i in 0..n {
        for j in 0..m {
            cost[(i, j)] = cm.entries[i][j] as f64 / cm.scale as f64;
        }
    }
    let gamma = rust_optimal_transport::exact::EarthMovers::new(
        &mut source_weights,
        &mut target_weights,
        &mut cost,
    )
    .solve()
    .expect("solver failed");
    // order-preserving encoding of the non-negative masses
    (0..n).map(|i| (0..m).map(|j| gamma[(i, j)].to_bits()).collect()).collect()
}

#[test]
fn one_agent_fans_out_to_two_tied_targets() {
    // a single agent and two targets at mirrored positions: mass
    // conservation splits the agent's mass equally, the row is tied, and
    // the thresholding deliberately fans the agent out to both targets
    let agents = vec![vec![0i64, 0, 0]];
    let targets = vec![vec![1i64, 0, 0], vec![-1, 0, 0]];
    let coupling = solve_emd(&agents, &targets);
    let b = binarize_coupling(&coupling).unwrap();
    assert_eq!(b, vec![vec![1u32, 1]]);
}

#[test]
fn two_agents_share_a_single_target() {
    let agents = vec![vec![0i64, 0, 0], vec![5, 0, 0]];
    let targets = vec![vec![2i64, 0, 0]];
    let coupling = solve_emd(&agents, &targets);
    let b = binarize_coupling(&coupling).unwrap();
    assert_eq!(b, vec![vec![1u32], vec![1]]);
}

#[test]
fn three_agent_line_scenario_yields_the_identity_assignment() {
    // 3 agents and 3 targets on a line at the same positions, uniform
    // weights of one third each: the transport solver pairs each agent with
    // its own position's target, so the binary assignment is the identity.
    let agents = vec![vec![0i64, 0, 0], vec![1, 0, 0], vec![2, 0, 0]];
    let targets = agents.clone();
    let coupling = solve_emd(&agents, &targets);
    let b = binarize_coupling(&coupling).unwrap();
    assert_eq!(b, vec![vec![1u32, 0, 0], vec![0, 1, 0], vec![0, 0, 1]]);
}
