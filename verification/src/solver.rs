//! The whole solve in one call: build the tableau, run the driver, read
//! the solution out of the terminal tableau.

use vstd::prelude::*;

use crate::builder::{build_tableau, built_tab_v};
use crate::driver::{run_v, solve, RunOutcome, SolveStatus};
use crate::error::LpError;
use crate::extract::{extract_solution, extracted_q, objective_value, primal_values};
use crate::rational::{abs_q, q_le, q_zero, Rat};
use crate::tableau::{LinearProgram, Tableau};

verus! {

/// Everything a finished solve reports: the terminal state, the pivot
/// count, the objective's optimal value, the values of the original
/// problem's variables, the basic values of the tableau's own decision
/// columns, and the terminal tableau itself.
pub struct LpSolution {
    pub status: SolveStatus,
    pub iterations: usize,
    pub optimal_value: Rat,
    pub variable_values: Vec<Rat>,
    pub basic_values: Vec<Rat>,
    pub tableau: Tableau,
}

/// Solves `lp`: dimension check, tableau construction by the duality
/// transpose, simplex iterations capped at the number of objective
/// columns, then extraction.
///
/// Fails with `InvalidDimensions` exactly when `lp` breaks the dimension
/// rule; otherwise the outcome is exactly what `run_v` denotes on the
/// built tableau, with `MaxIterationsExceeded` for a run that hits the
/// cap and `ArithmeticOverflow` for an exact result that left the 64-bit
/// range.
pub fn solve_lp(lp: &LinearProgram) -> (r: Result<LpSolution, LpError>)
    requires
        lp.wf(),
    ensures
        r == Err::<LpSolution, LpError>(LpError::InvalidDimensions) <==> !lp.dims_ok(),
        lp.dims_ok() ==> ({
            let n = lp.objective@.len() as int;
            let m = lp.constraints@.len() as int;
            let res = run_v(built_tab_v(*lp), (m + n) as nat);
            match r {
                Ok(s) => {
                    &&& (s.status is OptimalFound || s.status is Unbounded)
                    &&& s.status is OptimalFound ==> res == (RunOutcome::Optimal {
                        t: s.tableau@,
                        iters: s.iterations as nat,
                    })
                    &&& s.status is Unbounded ==> res == (RunOutcome::Unbounded {
                        t: s.tableau@,
                        iters: s.iterations as nat,
                    })
                    &&& s.iterations as int <= m + n
                    &&& s.tableau.wf()
                    &&& s.tableau@.obj.len() == m + n
                    &&& s.tableau@.rows.len() == n
                    &&& s.optimal_value@ == abs_q(s.tableau@.cost)
                    &&& q_le(q_zero(), s.optimal_value@)
                    &&& s.variable_values@.len() == n
                    &&& forall|j: int|
                        0 <= j < n ==> (#[trigger] s.variable_values@[j])@ == abs_q(
                            s.tableau@.obj[m + j],
                        )
                    &&& forall|j: int|
                        0 <= j < n ==> q_le(q_zero(), (#[trigger] s.variable_values@[j])@)
                    &&& s.basic_values@.len() == m
                    &&& forall|j: int|
                        0 <= j < m ==> (#[trigger] s.basic_values@[j])@ == extracted_q(
                            s.tableau@,
                            j,
                        )
                    &&& s.status is OptimalFound ==> forall|k: int|
                        0 <= k < s.tableau@.obj.len() ==> q_le(
                            #[trigger] s.tableau@.obj[k],
                            q_zero(),
                        )
                },
                Err(e) => {
                    &&& (e == LpError::MaxIterationsExceeded || e == LpError::ArithmeticOverflow)
                    &&& e == LpError::MaxIterationsExceeded ==> res is CapExceeded
                    &&& e == LpError::ArithmeticOverflow ==> res is Overflow
                },
            }
        }),
{
    let mut t = match build_tableau(lp) {
        Ok(t) => t,
        Err(e) => {
            return Err(e);
        },
    };
    let n = lp.objective.len();
    let m = lp.constraints.len();
    let out = match solve(&mut t) {
        Ok(out) => out,
        Err(e) => {
            return Err(e);
        },
    };
    let optimal_value = objective_value(&t);
    let variable_values = primal_values(&t, n);
    let basic_values = extract_solution(&t, m);
    Ok(
        LpSolution {
            status: out.status,
            iterations: out.iterations,
            optimal_value,
            variable_values,
            basic_values,
            tableau: t,
        },
    )
}

} // verus!
