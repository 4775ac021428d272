//! Tableau construction: transpose, slack augmentation, orientation, and
//! the dimension check.

use simplex_lp::builder::{
    add_slack_variables_constraints, add_slack_variables_objective_fn, build_tableau,
    transpose_matrix,
};
use simplex_lp::error::LpError;
use simplex_lp::rational::Rat;
use simplex_lp::tableau::{LinearProgram, Orientation};

fn ri(n: i64) -> Rat {
    Rat::from_int(n)
}

fn row(vals: &[i64]) -> Vec<Rat> {
    let mut out = Vec::new();
    for v in vals {
        out.push(ri(*v));
    }
    out
}

fn nums(r: &[Rat]) -> Vec<i64> {
    let mut out = Vec::new();
    for x in r {
        assert_eq!(x.den(), 1);
        out.push(x.num());
    }
    out
}

#[test]
fn transpose_swaps_rows_and_columns() {
    let m = vec![row(&[1, 2]), row(&[3, 4]), row(&[5, 6])];
    let t = transpose_matrix(&m);
    assert_eq!(t.len(), 2);
    assert_eq!(nums(&t[0]), vec![1, 3, 5]);
    assert_eq!(nums(&t[1]), vec![2, 4, 6]);
}

#[test]
fn transpose_twice_restores_the_matrix() {
    let m = vec![row(&[1, 2, 3]), row(&[4, 5, 6])];
    let u = transpose_matrix(&transpose_matrix(&m));
    assert_eq!(u.len(), m.len());
    for (a, b) in m.iter().zip(u.iter()) {
        assert_eq!(nums(a), nums(b));
    }
}

#[test]
fn slack_columns_are_identity_before_the_rhs() {
    let m = vec![row(&[1, 2, 10]), row(&[3, 4, 20])];
    let t = add_slack_variables_constraints(&m);
    assert_eq!(t.len(), 2);
    assert_eq!(nums(&t[0]), vec![1, 2, 1, 0, 10]);
    assert_eq!(nums(&t[1]), vec![3, 4, 0, 1, 20]);
}

#[test]
fn objective_slacks_are_zero() {
    let t = add_slack_variables_objective_fn(row(&[5, 7]), 3);
    assert_eq!(nums(&t), vec![5, 7, 0, 0, 0]);
}

#[test]
fn built_tableau_layout() {
    // min: 3 x0 + 2 x1, subject to x0 + x1 >= 4 and 2 x0 + x1 >= 6.
    let lp = LinearProgram {
        orientation: Orientation::Minimize,
        objective: row(&[3, 2]),
        constraints: vec![row(&[1, 1, 4]), row(&[2, 1, 6])],
    };
    let t = build_tableau(&lp).unwrap();
    assert_eq!(nums(&t.objective_row), vec![4, 6, 0, 0]);
    assert_eq!(t.rows.len(), 2);
    assert_eq!(nums(&t.rows[0]), vec![1, 2, 1, 0, 3]);
    assert_eq!(nums(&t.rows[1]), vec![1, 1, 0, 1, 2]);
    assert!(t.running_cost.is_zero());
}

#[test]
fn maximization_negates_the_objective() {
    let lp = LinearProgram {
        orientation: Orientation::Maximize,
        objective: row(&[-3, -2]),
        constraints: vec![row(&[1, 1, 4]), row(&[2, 1, 6])],
    };
    let t = build_tableau(&lp).unwrap();
    // the oriented objective coefficients land as the rows' right-hand sides
    assert_eq!(nums(&t.rows[0]), vec![1, 2, 1, 0, 3]);
    assert_eq!(nums(&t.rows[1]), vec![1, 1, 0, 1, 2]);
}

#[test]
fn ragged_rows_are_invalid() {
    let lp = LinearProgram {
        orientation: Orientation::Minimize,
        objective: row(&[3]),
        constraints: vec![row(&[1, 1, 4])],
    };
    assert!(matches!(build_tableau(&lp), Err(LpError::InvalidDimensions)));
}

#[test]
fn empty_problem_is_invalid() {
    let lp = LinearProgram {
        orientation: Orientation::Minimize,
        objective: row(&[3, 2]),
        constraints: Vec::new(),
    };
    assert!(matches!(build_tableau(&lp), Err(LpError::InvalidDimensions)));
    let lp2 = LinearProgram {
        orientation: Orientation::Minimize,
        objective: Vec::new(),
        constraints: vec![row(&[4])],
    };
    assert!(matches!(build_tableau(&lp2), Err(LpError::InvalidDimensions)));
}
