//! The problem model and the tableau that the simplex iterations mutate.

use vstd::prelude::*;

use crate::rational::{q_wf, q_zero, Rat};

verus! {

/// Whether the stated objective is to be maximized or minimized.  The
/// orientation is an explicit value threaded through building and
/// extraction, never inferred, so one sign convention governs a whole run.
#[derive(Clone, Copy, Debug, PartialEq, Eq, Structural)]
pub enum Orientation {
    Maximize,
    Minimize,
}

/// A linear program: optimize `objective . x` subject to one `>=` row per
/// constraint, with every decision variable non-negative.  Each constraint
/// row holds one coefficient per decision variable and the right-hand side
/// as its last entry.
pub struct LinearProgram {
    pub orientation: Orientation,
    pub objective: Vec<Rat>,
    pub constraints: Vec<Vec<Rat>>,
}

/// Specification image of a row: the rational pair of each entry.
pub open spec fn row_v(r: Seq<Rat>) -> Seq<(int, int)> {
    r.map_values(|x: Rat| x@)
}

/// Specification image of a matrix of rationals.
pub open spec fn rows_v(rs: Seq<Vec<Rat>>) -> Seq<Seq<(int, int)>> {
    rs.map_values(|row: Vec<Rat>| row_v(row@))
}

/// Every entry of a specification row is a well-formed pair.
pub open spec fn row_wf(r: Seq<(int, int)>) -> bool {
    forall|i: int| 0 <= i < r.len() ==> q_wf(#[trigger] r[i])
}

/// Specification image of a whole tableau.
pub ghost struct TabV {
    pub obj: Seq<(int, int)>,
    pub rows: Seq<Seq<(int, int)>>,
    pub cost: (int, int),
}

impl TabV {
    /// Well-formedness: every entry is a well-formed rational pair and each
    /// constraint row is exactly one entry (the right-hand side) longer
    /// than the objective row.
    pub open spec fn wf(self) -> bool {
        &&& q_wf(self.cost)
        &&& row_wf(self.obj)
        &&& forall|j: int| 0 <= j < self.rows.len() ==> row_wf(#[trigger] self.rows[j])
        &&& forall|j: int|
            0 <= j < self.rows.len() ==> (#[trigger] self.rows[j]).len() == self.obj.len() + 1
    }
}

/// The simplex tableau: objective row (reduced costs over decision and
/// slack columns), one row per constraint whose last entry is the current
/// right-hand side, and the objective value accumulated by the pivots so
/// far.
pub struct Tableau {
    pub objective_row: Vec<Rat>,
    pub rows: Vec<Vec<Rat>>,
    pub running_cost: Rat,
}

impl View for Tableau {
    type V = TabV;

    open spec fn view(&self) -> TabV {
        TabV {
            obj: row_v(self.objective_row@),
            rows: rows_v(self.rows@),
            cost: self.running_cost@,
        }
    }
}

impl Tableau {
    /// Well-formedness of the executable tableau is that of its image.
    pub open spec fn wf(self) -> bool {
        self@.wf()
    }

    /// A tableau with the given rows, no pivots performed yet.
    pub fn new(objective_row: Vec<Rat>, rows: Vec<Vec<Rat>>) -> (t: Tableau)
        ensures
            t@.obj == row_v(objective_row@),
            t@.rows == rows_v(rows@),
            t@.cost == q_zero(),
    {
        Tableau { objective_row, rows, running_cost: Rat::zero() }
    }
}

} // verus!
