//! The simplex engine end to end: selection rules, pivoting, the driver's
//! stopping conditions, and solution extraction.

use simplex_lp::driver::{select_entering, select_leaving, solve, SolveStatus};
use simplex_lp::error::LpError;
use simplex_lp::extract::{extract_solution, objective_value};
use simplex_lp::pivot::pivot;
use simplex_lp::rational::Rat;
use simplex_lp::solver::solve_lp;
use simplex_lp::tableau::{LinearProgram, Orientation, Tableau};

fn ri(n: i64) -> Rat {
    Rat::from_int(n)
}

fn row(vals: &[i64]) -> Vec<Rat> {
    let mut out = Vec::new();
    for v in vals {
        out.push(ri(*v));
    }
    out
}

#[test]
fn entering_picks_largest_positive() {
    let obj = row(&[1, 5, 3]);
    assert_eq!(select_entering(&obj), Some(1));
}

#[test]
fn entering_ties_go_to_the_later_column() {
    let obj = row(&[5, 5, 3]);
    assert_eq!(select_entering(&obj), Some(1));
}

#[test]
fn entering_none_when_all_at_or_below_zero() {
    assert_eq!(select_entering(&row(&[0, -1, 0])), None);
    assert_eq!(select_entering(&row(&[0, 0])), None);
}

#[test]
fn entering_ignores_every_zero_representation() {
    // zeros in any shape are ineligible, as are negative entries
    let obj = vec![Rat::new(0, -4), Rat::new(0, 7), Rat::new(-1, 2)];
    assert_eq!(select_entering(&obj), None);
    let obj2 = vec![Rat::new(0, -4), Rat::new(1, 3)];
    assert_eq!(select_entering(&obj2), Some(1));
}

#[test]
fn minimum_ratio_picks_the_smallest_finite_ratio() {
    // entering-column coefficients [2, -1, 3], right-hand sides [4, 5, 9]:
    // ratios [2, excluded, 3], so the first row leaves
    let rows = vec![row(&[2, 4]), row(&[-1, 5]), row(&[3, 9])];
    assert_eq!(select_leaving(&rows, 0).unwrap(), Some(0));
}

#[test]
fn minimum_ratio_allows_negative_over_negative() {
    // both negative yields the positive candidate 2, beating the ratio 3
    let rows = vec![row(&[-2, -4]), row(&[1, 3])];
    assert_eq!(select_leaving(&rows, 0).unwrap(), Some(0));
    // but a smaller positive ratio still wins
    let rows2 = vec![row(&[-2, -4]), row(&[1, 1])];
    assert_eq!(select_leaving(&rows2, 0).unwrap(), Some(1));
}

#[test]
fn minimum_ratio_excludes_zero_coefficients() {
    let rows = vec![row(&[0, 4]), row(&[2, 8])];
    assert_eq!(select_leaving(&rows, 0).unwrap(), Some(1));
}

#[test]
fn minimum_ratio_none_means_unbounded() {
    let rows = vec![row(&[-1, 5]), row(&[0, 3])];
    assert_eq!(select_leaving(&rows, 0).unwrap(), None);
}

#[test]
fn pivot_normalizes_and_zeroes_the_column() {
    let mut t = Tableau::new(row(&[3, 2]), vec![row(&[2, 4, 10]), row(&[1, 1, 4])]);
    pivot(&mut t, 0, 0).unwrap();
    // pivot row divided by 2
    assert_eq!(t.rows[0][0], ri(1));
    assert_eq!(t.rows[0][1], ri(2));
    assert_eq!(t.rows[0][2], ri(5));
    // other row: entry zeroed, rest substituted
    assert!(t.rows[1][0].is_zero());
    assert_eq!(t.rows[1][1], ri(-1));
    assert_eq!(t.rows[1][2], ri(-1));
    // objective: column zeroed, cost accumulated
    assert!(t.objective_row[0].is_zero());
    assert_eq!(t.objective_row[1], ri(-4));
    assert_eq!(t.running_cost, ri(-15));
}

#[test]
fn pivot_on_zero_element_is_degenerate() {
    let mut t = Tableau::new(row(&[1, 1]), vec![row(&[0, 1, 4])]);
    assert_eq!(pivot(&mut t, 0, 0), Err(LpError::DegeneratePivot));
    // the tableau is unchanged
    assert_eq!(t.rows[0][1], ri(1));
}

#[test]
fn iteration_cap_is_reported() {
    // this tableau still has an eligible entering column after as many
    // pivots as there are objective columns, so the safety valve fires
    let mut t = Tableau::new(
        row(&[3, 2, -3]),
        vec![row(&[2, 1, -2, 1]), row(&[2, -1, 0, -2])],
    );
    assert!(matches!(solve(&mut t), Err(LpError::MaxIterationsExceeded)));
}

#[test]
fn solve_reports_overflow_on_exact_results_too_wide() {
    let big = i64::MAX;
    let mut t = Tableau::new(vec![ri(big)], vec![vec![ri(big - 1), ri(big)]]);
    assert!(matches!(solve(&mut t), Err(LpError::ArithmeticOverflow)));
}

#[test]
fn end_to_end_minimization() {
    // min: 3 x0 + 2 x1, subject to x0 + x1 >= 4 and 2 x0 + x1 >= 6:
    // optimum 10 at x0 = 2, x1 = 2
    let lp = LinearProgram {
        orientation: Orientation::Minimize,
        objective: row(&[3, 2]),
        constraints: vec![row(&[1, 1, 4]), row(&[2, 1, 6])],
    };
    let s = solve_lp(&lp).unwrap();
    assert!(matches!(s.status, SolveStatus::OptimalFound));
    // iteration bound: at most one pivot per objective column
    assert!(s.iterations <= 4);
    assert_eq!(s.optimal_value, ri(10));
    assert_eq!(s.variable_values, vec![ri(2), ri(2)]);
    // the tableau's own decision columns carry the dual solution
    assert_eq!(s.basic_values, vec![ri(1), ri(1)]);
}

#[test]
fn duality_round_trip_matches() {
    // the same problem stated as a maximization of the negated objective
    // must reach the same optimal value and the same variable values
    let min_form = LinearProgram {
        orientation: Orientation::Minimize,
        objective: row(&[3, 2]),
        constraints: vec![row(&[1, 1, 4]), row(&[2, 1, 6])],
    };
    let max_form = LinearProgram {
        orientation: Orientation::Maximize,
        objective: row(&[-3, -2]),
        constraints: vec![row(&[1, 1, 4]), row(&[2, 1, 6])],
    };
    let a = solve_lp(&min_form).unwrap();
    let b = solve_lp(&max_form).unwrap();
    assert_eq!(a.optimal_value, b.optimal_value);
    assert_eq!(a.variable_values, b.variable_values);
    assert_eq!(a.iterations, b.iterations);
}

#[test]
fn optimal_found_is_stable() {
    // once OptimalFound is reached, one more entering-variable selection
    // finds no eligible column
    let lp = LinearProgram {
        orientation: Orientation::Minimize,
        objective: row(&[3, 2]),
        constraints: vec![row(&[1, 1, 4]), row(&[2, 1, 6])],
    };
    let s = solve_lp(&lp).unwrap();
    assert!(matches!(s.status, SolveStatus::OptimalFound));
    assert_eq!(select_entering(&s.tableau.objective_row), None);
}

#[test]
fn extracted_values_are_nonnegative() {
    let lp = LinearProgram {
        orientation: Orientation::Minimize,
        objective: row(&[3, 2]),
        constraints: vec![row(&[1, 1, 4]), row(&[2, 1, 6])],
    };
    let s = solve_lp(&lp).unwrap();
    for v in &s.variable_values {
        assert!(!v.is_neg());
    }
}

#[test]
fn unbounded_problem_is_detected() {
    // min: -x0 subject to x0 >= 5 has no lower bound
    let lp = LinearProgram {
        orientation: Orientation::Minimize,
        objective: row(&[-1]),
        constraints: vec![row(&[1, 5])],
    };
    let s = solve_lp(&lp).unwrap();
    assert!(matches!(s.status, SolveStatus::Unbounded));
}

#[test]
fn invalid_dimensions_from_solver() {
    let lp = LinearProgram {
        orientation: Orientation::Minimize,
        objective: row(&[3, 2]),
        constraints: vec![row(&[1, 1, 4]), row(&[2, 6])],
    };
    assert_eq!(
        solve_lp(&lp).map(|_| ()),
        Err(LpError::InvalidDimensions)
    );
}

#[test]
fn extraction_reads_the_largest_coefficient_row() {
    // column 0 has zero reduced cost: its value comes from the row with
    // the largest coefficient in that column (the second, rhs 3);
    // column 1 has non-zero reduced cost and reads as zero
    let t = Tableau::new(row(&[0, 5]), vec![row(&[1, 0, 7]), row(&[2, 0, 3])]);
    let vals = extract_solution(&t, 2);
    assert_eq!(vals, vec![ri(3), ri(0)]);
}

#[test]
fn objective_value_is_absolute() {
    let lp = LinearProgram {
        orientation: Orientation::Minimize,
        objective: row(&[3, 2]),
        constraints: vec![row(&[1, 1, 4]), row(&[2, 1, 6])],
    };
    let s = solve_lp(&lp).unwrap();
    // the running cost accumulates negatively; the reported value is |cost|
    assert!(s.tableau.running_cost.is_neg());
    assert_eq!(objective_value(&s.tableau), ri(10));
}
