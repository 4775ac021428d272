//! The solution extractor: reading variable values and the objective's
//! optimal value out of the terminal tableau.

use vstd::prelude::*;

use crate::rational::{abs_q, q_le, q_lt, q_wf, q_zero, Rat};
use crate::tableau::{row_v, TabV, Tableau};

verus! {

/// Scan of the rows from `j` with the row of largest coefficient in
/// column `col` seen so far; only a strictly larger coefficient replaces
/// the candidate, so of equal coefficients the earliest row wins.
pub open spec fn argmax_from(rows: Seq<Seq<(int, int)>>, col: int, j: int, bi: int) -> int
    decreases rows.len() - j when 0 <= j <= rows.len()
{
    if j >= rows.len() {
        bi
    } else {
        let b2 = if q_lt(rows[bi][col], rows[j][col]) {
            j
        } else {
            bi
        };
        argmax_from(rows, col, j + 1, b2)
    }
}

/// The row with the largest coefficient in column `col` — the heuristic
/// locating the basic row of a variable whose reduced cost is zero.
pub open spec fn argmax_col_q(rows: Seq<Seq<(int, int)>>, col: int) -> int {
    argmax_from(rows, col, 1, 0)
}

/// The scan stays within the rows.
pub proof fn lemma_argmax_in_range(rows: Seq<Seq<(int, int)>>, col: int, j: int, bi: int)
    requires
        rows.len() >= 1,
        0 <= j <= rows.len(),
        0 <= bi < rows.len(),
    ensures
        0 <= argmax_from(rows, col, j, bi) < rows.len(),
    decreases rows.len() - j,
{
    if j < rows.len() {
        let b2 = if q_lt(rows[bi][col], rows[j][col]) {
            j
        } else {
            bi
        };
        lemma_argmax_in_range(rows, col, j + 1, b2);
    }
}

/// The value the extractor reports for decision column `j`: the
/// right-hand side of the row with the largest coefficient in that column
/// when the column's reduced cost is exactly zero (the variable is in the
/// basis), and zero otherwise.
pub open spec fn extracted_q(t: TabV, j: int) -> (int, int) {
    if t.obj[j].0 == 0 {
        let r = argmax_col_q(t.rows, j);
        t.rows[r][t.rows[r].len() - 1]
    } else {
        q_zero()
    }
}

/// Reads the basic-feasible values of the tableau's first `n_decision`
/// columns out of the terminal tableau, as `extracted_q` denotes them:
/// for each column whose objective-row entry is exactly zero, the
/// right-hand side of the row with the largest coefficient in that
/// column; zero for every other column.
pub fn extract_solution(t: &Tableau, n_decision: usize) -> (r: Vec<Rat>)
    requires
        t.wf(),
        t@.rows.len() >= 1,
        n_decision as int <= t@.obj.len(),
    ensures
        r@.len() == n_decision,
        forall|j: int| 0 <= j < n_decision ==> (#[trigger] r@[j])@ == extracted_q(t@, j),
        forall|j: int| 0 <= j < n_decision ==> q_wf((#[trigger] r@[j])@),
{
    let mut out: Vec<Rat> = Vec::new();
    let mut j: usize = 0;
    while j < n_decision
        invariant
            j <= n_decision,
            t.wf(),
            t@.rows.len() >= 1,
            n_decision as int <= t@.obj.len(),
            out@.len() == j as int,
            forall|q: int| 0 <= q < j as int ==> (#[trigger] out@[q])@ == extracted_q(t@, q),
            forall|q: int| 0 <= q < j as int ==> q_wf((#[trigger] out@[q])@),
        decreases n_decision - j,
    {
        proof {
            assert(t@.obj[j as int] == row_v(t.objective_row@)[j as int]);
            assert(row_v(t.objective_row@)[j as int] == t.objective_row@[j as int]@);
        }
        let c = t.objective_row[j];
        if c.is_zero() {
            let ghost rv = t@.rows;
            let mut bi: usize = 0;
            let mut i: usize = 1;
            while i < t.rows.len()
                invariant
                    1 <= i <= t.rows@.len(),
                    t.wf(),
                    t@.rows.len() >= 1,
                    rv == t@.rows,
                    j < n_decision,
                    n_decision as int <= t@.obj.len(),
                    (bi as int) < t.rows@.len(),
                    argmax_from(rv, j as int, i as int, bi as int) == argmax_col_q(rv, j as int),
                decreases t.rows@.len() - i,
            {
                proof {
                    assert(rv[bi as int] == row_v(t.rows@[bi as int]@));
                    assert(rv[i as int] == row_v(t.rows@[i as int]@));
                    assert(row_v(t.rows@[bi as int]@)[j as int] == t.rows@[bi as int]@[j as int]@);
                    assert(row_v(t.rows@[i as int]@)[j as int] == t.rows@[i as int]@[j as int]@);
                    assert(q_wf(rv[bi as int][j as int]));
                    assert(q_wf(rv[i as int][j as int]));
                }
                let a = t.rows[bi][j];
                let b = t.rows[i][j];
                if a.lt(b) {
                    bi = i;
                }
                i += 1;
            }
            proof {
                assert(argmax_col_q(rv, j as int) == bi as int);
                assert(rv[bi as int] == row_v(t.rows@[bi as int]@));
                assert(row_v(t.rows@[bi as int]@)[rv[bi as int].len() - 1] == t.rows@[bi as int]@[
                    t.rows@[bi as int]@.len() - 1
                ]@);
            }
            let row = &t.rows[bi];
            let v = row[row.len() - 1];
            out.push(v);
        } else {
            out.push(Rat::zero());
        }
        j += 1;
    }
    out
}

/// The objective's optimal value: the absolute value of the accumulated
/// running cost, correcting the sign of the earlier
/// minimization-to-maximization conversion.
pub fn objective_value(t: &Tableau) -> (r: Rat)
    requires
        t.wf(),
    ensures
        r@ == abs_q(t@.cost),
        r.wf(),
        q_le(q_zero(), r@),
{
    t.running_cost.abs()
}

/// Reads the original problem's variable values out of a tableau built by
/// the duality transpose: at optimality the value of original variable
/// `j` is the magnitude of the objective-row entry of slack column `j`.
/// Every reported value is non-negative.
pub fn primal_values(t: &Tableau, n_vars: usize) -> (r: Vec<Rat>)
    requires
        t.wf(),
        n_vars as int <= t@.obj.len(),
    ensures
        r@.len() == n_vars,
        forall|j: int|
            0 <= j < n_vars ==> (#[trigger] r@[j])@ == abs_q(
                t@.obj[t@.obj.len() - n_vars + j],
            ),
        forall|j: int| 0 <= j < n_vars ==> q_le(q_zero(), (#[trigger] r@[j])@),
{
    proof {
        assert(t@.obj.len() == t.objective_row@.len());
    }
    let olen = t.objective_row.len();
    let base = olen - n_vars;
    let mut out: Vec<Rat> = Vec::new();
    let mut j: usize = 0;
    while j < n_vars
        invariant
            j <= n_vars,
            t.wf(),
            n_vars as int <= t@.obj.len(),
            base as int == t@.obj.len() - n_vars,
            base as int + n_vars as int == t.objective_row@.len(),
            t.objective_row@.len() <= usize::MAX as int,
            out@.len() == j as int,
            forall|q: int|
                0 <= q < j as int ==> (#[trigger] out@[q])@ == abs_q(
                    t@.obj[t@.obj.len() - n_vars + q],
                ),
            forall|q: int| 0 <= q < j as int ==> q_le(q_zero(), (#[trigger] out@[q])@),
        decreases n_vars - j,
    {
        proof {
            assert(t@.obj[base as int + j as int] == row_v(t.objective_row@)[base as int
                + j as int]);
            assert(row_v(t.objective_row@)[base as int + j as int] == t.objective_row@[base as int
                + j as int]@);
            assert(q_wf(t@.obj[base as int + j as int]));
        }
        out.push(t.objective_row[base + j].abs());
        j += 1;
    }
    out
}

} // verus!
