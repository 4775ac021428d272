//! Building the initial tableau from a linear program.
//!
//! The slack-sign convention used throughout this crate: the constraint
//! matrix (with its right-hand sides) and the objective are stacked,
//! transposed — an LP-duality transformation, valid when the original and
//! its dual share an optimal value — and slack columns of identity form
//! with coefficient `+1` are appended, with the right-hand side re-inserted
//! as the last entry of every row.  A maximization problem is first negated
//! into the equivalent minimization, so one convention holds for the whole
//! run.

use vstd::prelude::*;

use crate::error::LpError;
use crate::rational::{neg_q, q_wf, q_zero, Rat};
use crate::tableau::{row_v, row_wf, rows_v, LinearProgram, Orientation, TabV, Tableau};

verus! {

impl LinearProgram {
    /// Every stored coefficient is a well-formed rational.
    pub open spec fn wf(self) -> bool {
        &&& row_wf(row_v(self.objective@))
        &&& forall|j: int|
            0 <= j < self.constraints@.len() ==> row_wf(row_v(#[trigger] self.constraints@[j]@))
    }

    /// The dimension rule the builder enforces: at least one variable, at
    /// least one constraint, and every constraint row one entry (its
    /// right-hand side) longer than the objective.
    pub open spec fn dims_ok(self) -> bool {
        &&& self.objective@.len() >= 1
        &&& self.constraints@.len() >= 1
        &&& forall|j: int|
            0 <= j < self.constraints@.len() ==> (#[trigger] self.constraints@[j]@).len()
                == self.objective@.len() + 1
    }
}

/// The objective coefficient of column `j` once the orientation is applied:
/// unchanged for a minimization, negated for a maximization.
pub open spec fn oriented_obj_v(lp: LinearProgram, j: int) -> (int, int) {
    if lp.orientation is Minimize {
        row_v(lp.objective@)[j]
    } else {
        neg_q(row_v(lp.objective@)[j])
    }
}

/// Exact layout of the tableau the builder produces from `lp`, with
/// `n` decision variables and `m` constraints in the input: `n` rows (one
/// per original variable), each holding the transposed constraint column,
/// then `+1` slack entries in identity layout, then the oriented objective
/// coefficient as right-hand side; the objective row holds the original
/// right-hand sides followed by zeros for the slack columns.
pub open spec fn built_tableau_ok(lp: LinearProgram, t: TabV) -> bool {
    let n = lp.objective@.len() as int;
    let m = lp.constraints@.len() as int;
    &&& t.cost == q_zero()
    &&& t.obj.len() == m + n
    &&& forall|i: int| 0 <= i < m ==> t.obj[i] == row_v(#[trigger] lp.constraints@[i]@)[n]
    &&& forall|i: int| m <= i < m + n ==> #[trigger] t.obj[i] == q_zero()
    &&& t.rows.len() == n
    &&& forall|j: int| 0 <= j < n ==> (#[trigger] t.rows[j]).len() == m + n + 1
    &&& forall|j: int, i: int|
        0 <= j < n && 0 <= i < m ==> #[trigger] t.rows[j][i] == row_v(lp.constraints@[i]@)[j]
    &&& forall|j: int, s: int|
        0 <= j < n && 0 <= s < n ==> #[trigger] t.rows[j][m + s] == (
        if s == j {
            (1int, 1int)
        } else {
            q_zero()
        })
    &&& forall|j: int| 0 <= j < n ==> (#[trigger] t.rows[j])[m + n] == oriented_obj_v(lp, j)
}

/// The tableau the builder produces, written constructively: the same
/// layout that `built_tableau_ok` states clause by clause.
pub open spec fn built_tab_v(lp: LinearProgram) -> TabV {
    let n = lp.objective@.len() as int;
    let m = lp.constraints@.len() as int;
    TabV {
        obj: Seq::new(
            (m + n) as nat,
            |i: int|
                if i < m {
                    row_v(lp.constraints@[i]@)[n]
                } else {
                    q_zero()
                },
        ),
        rows: Seq::new(
            n as nat,
            |j: int|
                Seq::new(
                    (m + n + 1) as nat,
                    |i: int|
                        if i < m {
                            row_v(lp.constraints@[i]@)[j]
                        } else if i < m + n {
                            if i - m == j {
                                (1int, 1int)
                            } else {
                                q_zero()
                            }
                        } else {
                            oriented_obj_v(lp, j)
                        },
                ),
        ),
        cost: q_zero(),
    }
}

/// The clause-by-clause layout pins the tableau down: any tableau
/// satisfying it is `built_tab_v`.
proof fn lemma_built_unique(lp: LinearProgram, t: TabV)
    requires
        built_tableau_ok(lp, t),
    ensures
        t == built_tab_v(lp),
{
    let n = lp.objective@.len() as int;
    let m = lp.constraints@.len() as int;
    let u = built_tab_v(lp);
    assert(t.obj =~= u.obj);
    assert forall|j: int| 0 <= j < n implies #[trigger] t.rows[j] == u.rows[j] by {
        assert forall|i: int| 0 <= i < m + n + 1 implies #[trigger] t.rows[j][i] == u.rows[j][
            i
        ] by {
            if i < m {
            } else if i < m + n {
                assert(t.rows[j][m + (i - m)] == (if i - m == j {
                    (1int, 1int)
                } else {
                    q_zero()
                }));
            } else {
                assert(t.rows[j][m + n] == oriented_obj_v(lp, j));
            }
        }
        assert(t.rows[j] =~= u.rows[j]);
    }
    assert(t.rows =~= u.rows);
}

/// An exact copy of a row of rationals.
fn copy_row(v: &Vec<Rat>) -> (r: Vec<Rat>)
    ensures
        r@ == v@,
{
    let mut r: Vec<Rat> = Vec::new();
    let mut i: usize = 0;
    while i < v.len()
        invariant
            i <= v.len(),
            r@.len() == i as int,
            forall|k: int| 0 <= k < i as int ==> #[trigger] r@[k] == v@[k],
        decreases v.len() - i,
    {
        r.push(v[i]);
        i += 1;
    }
    proof {
        assert(r@ =~= v@);
    }
    r
}

/// Negation of every coefficient of a row; used to turn a maximization
/// objective into the equivalent minimization objective.
pub(crate) fn negate_row(v: &Vec<Rat>) -> (r: Vec<Rat>)
    requires
        row_wf(row_v(v@)),
    ensures
        r@.len() == v@.len(),
        forall|i: int| 0 <= i < v@.len() ==> row_v(r@)[i] == neg_q(row_v(v@)[i]),
        row_wf(row_v(r@)),
{
    let mut r: Vec<Rat> = Vec::new();
    let mut i: usize = 0;
    while i < v.len()
        invariant
            i <= v.len(),
            row_wf(row_v(v@)),
            r@.len() == i as int,
            forall|k: int| 0 <= k < i as int ==> (#[trigger] r@[k])@ == neg_q(v@[k]@),
        decreases v.len() - i,
    {
        proof {
            assert(row_v(v@)[i as int] == v@[i as int]@);
            assert(q_wf(v@[i as int]@));
        }
        r.push(v[i].neg());
        i += 1;
    }
    proof {
        assert forall|k: int| 0 <= k < v@.len() implies row_v(r@)[k] == neg_q(row_v(v@)[k]) by {
            assert(r@[k]@ == neg_q(v@[k]@));
        }
        assert forall|k: int| 0 <= k < r@.len() implies q_wf(#[trigger] row_v(r@)[k]) by {
            assert(q_wf(row_v(v@)[k]));
            assert(r@[k]@ == neg_q(v@[k]@));
        }
    }
    r
}

/// Transposes a rectangular matrix: rows become columns.  When the matrix
/// stacks a minimization problem's constraints and right-hand sides, this
/// step is the duality transformation that turns it into an equivalent
/// maximization problem.
pub fn transpose_matrix(m: &Vec<Vec<Rat>>) -> (t: Vec<Vec<Rat>>)
    requires
        m@.len() >= 1,
        forall|j: int| 0 <= j < m@.len() ==> (#[trigger] m@[j]@).len() == m@[0]@.len(),
    ensures
        t@.len() == m@[0]@.len(),
        forall|i: int| 0 <= i < t@.len() ==> (#[trigger] t@[i]@).len() == m@.len(),
        forall|i: int, j: int|
            0 <= i < t@.len() && 0 <= j < m@.len() ==> #[trigger] t@[i]@[j] == m@[j]@[i],
{
    let l = m[0].len();
    let mut t: Vec<Vec<Rat>> = Vec::new();
    let mut i: usize = 0;
    while i < l
        invariant
            i <= l,
            l == m@[0]@.len(),
            m@.len() >= 1,
            forall|j: int| 0 <= j < m@.len() ==> (#[trigger] m@[j]@).len() == l as int,
            t@.len() == i as int,
            forall|k: int| 0 <= k < i as int ==> (#[trigger] t@[k]@).len() == m@.len(),
            forall|k: int, j: int|
                0 <= k < i as int && 0 <= j < m@.len() ==> #[trigger] t@[k]@[j] == m@[j]@[k],
        decreases l - i,
    {
        let mut row: Vec<Rat> = Vec::new();
        let mut j: usize = 0;
        while j < m.len()
            invariant
                j <= m@.len(),
                i < l,
                l == m@[0]@.len(),
                forall|q: int| 0 <= q < m@.len() ==> (#[trigger] m@[q]@).len() == l as int,
                row@.len() == j as int,
                forall|q: int| 0 <= q < j as int ==> #[trigger] row@[q] == m@[q]@[i as int],
            decreases m@.len() - j,
        {
            row.push(m[j][i]);
            j += 1;
        }
        t.push(row);
        i += 1;
    }
    t
}

/// Appends the slack columns to each constraint row: one column per row,
/// identity layout with coefficient `+1`, keeping the right-hand side as
/// the last entry.
pub fn add_slack_variables_constraints(m: &Vec<Vec<Rat>>) -> (t: Vec<Vec<Rat>>)
    requires
        forall|j: int| 0 <= j < m@.len() ==> (#[trigger] m@[j]@).len() >= 1,
        forall|j: int| 0 <= j < m@.len() ==> (#[trigger] m@[j]@).len() == m@[0]@.len(),
    ensures
        t@.len() == m@.len(),
        forall|j: int|
            0 <= j < m@.len() ==> (#[trigger] t@[j]@).len() == m@[0]@.len() + m@.len(),
        forall|j: int, i: int|
            0 <= j < m@.len() && 0 <= i < m@[0]@.len() - 1 ==> #[trigger] t@[j]@[i] == m@[j]@[i],
        forall|j: int, s: int|
            0 <= j < m@.len() && 0 <= s < m@.len() ==> #[trigger] t@[j]@[m@[0]@.len() - 1 + s]
@ == (if s == j {
                (1int, 1int)
            } else {
                q_zero()
            }),
        forall|j: int|
            0 <= j < m@.len() ==> (#[trigger] t@[j]@)[m@[0]@.len() - 1 + m@.len()]
                == m@[j]@[m@[0]@.len() - 1],
{
    let k = m.len();
    let mut t: Vec<Vec<Rat>> = Vec::new();
    let mut j: usize = 0;
    while j < k
        invariant
            j <= k,
            k == m@.len(),
            forall|q: int| 0 <= q < k as int ==> (#[trigger] m@[q]@).len() >= 1,
            forall|q: int| 0 <= q < k as int ==> (#[trigger] m@[q]@).len() == m@[0]@.len(),
            t@.len() == j as int,
            forall|q: int|
                0 <= q < j as int ==> (#[trigger] t@[q]@).len() == m@[0]@.len() + k as int,
            forall|q: int, i: int|
                0 <= q < j as int && 0 <= i < m@[0]@.len() - 1 ==> #[trigger] t@[q]@[i]
                    == m@[q]@[i],
            forall|q: int, s: int|
                0 <= q < j as int && 0 <= s < k as int ==> #[trigger] t@[q]@[m@[0]@.len() - 1 + s]
@ == (if s == q {
                    (1int, 1int)
                } else {
                    q_zero()
                }),
            forall|q: int|
                0 <= q < j as int ==> (#[trigger] t@[q]@)[m@[0]@.len() - 1 + k as int]
                    == m@[q]@[m@[0]@.len() - 1],
        decreases k - j,
    {
        let l = m[j].len();
        let mut row: Vec<Rat> = Vec::new();
        let mut i: usize = 0;
        // the original coefficients, without the right-hand side
        while i < l - 1
            invariant
                i <= l - 1,
                j < k,
                k == m@.len(),
                l == m@[j as int]@.len(),
                l >= 1,
                row@.len() == i as int,
                forall|q: int| 0 <= q < i as int ==> #[trigger] row@[q] == m@[j as int]@[q],
            decreases l - 1 - i,
        {
            row.push(m[j][i]);
            i += 1;
        }
        // the identity slack block
        let mut s: usize = 0;
        while s < k
            invariant
                s <= k,
                j < k,
                k == m@.len(),
                l == m@[j as int]@.len(),
                l >= 1,
                row@.len() == l - 1 + s as int,
                forall|q: int| 0 <= q < l - 1 ==> #[trigger] row@[q] == m@[j as int]@[q],
                forall|q: int|
                    0 <= q < s as int ==> (#[trigger] row@[l - 1 + q])@ == (if q == j as int {
                        (1int, 1int)
                    } else {
                        q_zero()
                    }),
            decreases k - s,
        {
            if s == j {
                row.push(Rat::one());
            } else {
                row.push(Rat::zero());
            }
            s += 1;
        }
        // the right-hand side, re-inserted last
        row.push(m[j][l - 1]);
        t.push(row);
        j += 1;
    }
    t
}

/// Appends `n` zero coefficients to the objective row, one per slack
/// variable.
pub fn add_slack_variables_objective_fn(m: Vec<Rat>, n: usize) -> (t: Vec<Rat>)
    ensures
        t@.len() == m@.len() + n as int,
        forall|i: int| 0 <= i < m@.len() ==> #[trigger] t@[i] == m@[i],
        forall|i: int| m@.len() <= i < t@.len() ==> (#[trigger] t@[i])@ == q_zero(),
{
    let ghost m0: Seq<Rat> = m@;
    let mut t = m;
    let mut s: usize = 0;
    while s < n
        invariant
            s <= n,
            t@.len() == m0.len() + s as int,
            forall|i: int| 0 <= i < m0.len() ==> #[trigger] t@[i] == m0[i],
            forall|i: int| m0.len() <= i < t@.len() ==> (#[trigger] t@[i])@ == q_zero(),
        decreases n - s,
    {
        t.push(Rat::zero());
        s += 1;
    }
    t
}

/// Builds the initial tableau for `lp`: dimension check, orientation
/// conversion, duality transpose, then slack augmentation.  Fails with
/// `InvalidDimensions` exactly when `lp` breaks the dimension rule.
pub fn build_tableau(lp: &LinearProgram) -> (r: Result<Tableau, LpError>)
    requires
        lp.wf(),
    ensures
        r is Ok <==> lp.dims_ok(),
        r is Err ==> r == Err::<Tableau, LpError>(LpError::InvalidDimensions),
        r is Ok ==> built_tableau_ok(*lp, r.unwrap()@) && r.unwrap().wf() && r.unwrap()@
            == built_tab_v(*lp),
{
    let n = lp.objective.len();
    let m = lp.constraints.len();
    if n == 0 || m == 0 {
        return Err(LpError::InvalidDimensions);
    }
    let mut j: usize = 0;
    while j < m
        invariant
            j <= m,
            m == lp.constraints@.len(),
            n == lp.objective@.len(),
            forall|q: int|
                0 <= q < j as int ==> (#[trigger] lp.constraints@[q]@).len() == n as int + 1,
        decreases m - j,
    {
        let cl = lp.constraints[j].len();
        if cl == 0 || cl - 1 != n {
            return Err(LpError::InvalidDimensions);
        }
        j += 1;
    }
    let oriented: Vec<Rat> = match lp.orientation {
        Orientation::Minimize => copy_row(&lp.objective),
        Orientation::Maximize => negate_row(&lp.objective),
    };
    proof {
        assert forall|i: int| 0 <= i < n as int implies (#[trigger] oriented@[i])@
            == oriented_obj_v(*lp, i) by {
            assert(row_v(oriented@)[i] == oriented@[i]@);
            assert(row_v(lp.objective@)[i] == lp.objective@[i]@);
        }
    }
    let t = transpose_matrix(&lp.constraints);
    let mut dual_rows: Vec<Vec<Rat>> = Vec::new();
    let mut jj: usize = 0;
    while jj < n
        invariant
            jj <= n,
            n == lp.objective@.len(),
            m == lp.constraints@.len(),
            t@.len() == n as int + 1,
            forall|i: int| 0 <= i < t@.len() ==> (#[trigger] t@[i]@).len() == m as int,
            forall|i: int, q: int|
                0 <= i < t@.len() && 0 <= q < m as int ==> #[trigger] t@[i]@[q]
                    == lp.constraints@[q]@[i],
            oriented@.len() == n as int,
            forall|i: int|
                0 <= i < n as int ==> (#[trigger] oriented@[i])@ == oriented_obj_v(*lp, i),
            dual_rows@.len() == jj as int,
            forall|q: int|
                0 <= q < jj as int ==> (#[trigger] dual_rows@[q]@).len() == m as int + 1,
            forall|q: int, i: int|
                0 <= q < jj as int && 0 <= i < m as int ==> #[trigger] dual_rows@[q]@[i]
                    == lp.constraints@[i]@[q],
            forall|q: int|
                0 <= q < jj as int ==> (#[trigger] dual_rows@[q]@)[m as int]
                    == oriented@[q],
        decreases n - jj,
    {
        let mut row = copy_row(&t[jj]);
        row.push(oriented[jj]);
        dual_rows.push(row);
        jj += 1;
    }
    let dual_obj = copy_row(&t[n]);
    let ghost dv = dual_obj@;
    let with_slacks = add_slack_variables_constraints(&dual_rows);
    let obj_full = add_slack_variables_objective_fn(dual_obj, n);
    let tab = Tableau::new(obj_full, with_slacks);
    proof {
        let nn = lp.objective@.len() as int;
        let mm = lp.constraints@.len() as int;
        assert forall|i: int| 0 <= i < mm implies tab@.obj[i] == row_v(
            #[trigger] lp.constraints@[i]@,
        )[nn] by {
            assert(row_v(obj_full@)[i] == obj_full@[i]@);
            assert(obj_full@[i] == dv[i]);
            assert(dv[i] == t@[nn]@[i]);
            assert(t@[nn]@[i] == lp.constraints@[i]@[nn]);
            assert(row_v(lp.constraints@[i]@)[nn] == lp.constraints@[i]@[nn]@);
        }
        assert forall|i: int| mm <= i < mm + nn implies #[trigger] tab@.obj[i] == q_zero() by {
            assert(row_v(obj_full@)[i] == obj_full@[i]@);
        }
        assert forall|j: int| 0 <= j < nn implies (#[trigger] tab@.rows[j]).len() == mm + nn
            + 1 by {
            assert(rows_v(with_slacks@)[j] == row_v(with_slacks@[j]@));
        }
        assert forall|j: int, i: int| 0 <= j < nn && 0 <= i < mm implies #[trigger] tab@.rows[j][i]
            == row_v(lp.constraints@[i]@)[j] by {
            assert(rows_v(with_slacks@)[j] == row_v(with_slacks@[j]@));
            assert(row_v(with_slacks@[j]@)[i] == with_slacks@[j]@[i]@);
            assert(with_slacks@[j]@[i] == dual_rows@[j]@[i]);
            assert(dual_rows@[j]@[i] == lp.constraints@[i]@[j]);
            assert(row_v(lp.constraints@[i]@)[j] == lp.constraints@[i]@[j]@);
        }
        assert forall|j: int, s: int| 0 <= j < nn && 0 <= s < nn implies #[trigger] tab@.rows[j][mm
            + s] == (if s == j {
            (1int, 1int)
        } else {
            q_zero()
        }) by {
            assert(rows_v(with_slacks@)[j] == row_v(with_slacks@[j]@));
            assert(row_v(with_slacks@[j]@)[mm + s] == with_slacks@[j]@[mm + s]@);
            assert((with_slacks@[j]@[dual_rows@[0]@.len() - 1 + s])@ == (if s == j {
                (1int, 1int)
            } else {
                q_zero()
            }));
        }
        assert forall|j: int| 0 <= j < nn implies (#[trigger] tab@.rows[j])[mm + nn]
            == oriented_obj_v(*lp, j) by {
            assert(rows_v(with_slacks@)[j] == row_v(with_slacks@[j]@));
            assert(row_v(with_slacks@[j]@)[mm + nn] == with_slacks@[j]@[mm + nn]@);
            assert((with_slacks@[j]@)[dual_rows@[0]@.len() - 1 + nn] == dual_rows@[j]@[
                dual_rows@[0]@.len() - 1
            ]);
            assert(dual_rows@[j]@[mm] == oriented@[j]);
        }
        assert(built_tableau_ok(*lp, tab@));
        lemma_built_wf(*lp, tab@);
        lemma_built_unique(*lp, tab@);
    }
    Ok(tab)
}

/// Well-formedness of the built tableau follows from well-formed inputs:
/// every entry is either a copied coefficient, a slack constant, or an
/// oriented objective coefficient.
proof fn lemma_built_wf(lp: LinearProgram, t: TabV)
    requires
        lp.wf(),
        lp.dims_ok(),
        built_tableau_ok(lp, t),
    ensures
        t.wf(),
{
    let n = lp.objective@.len() as int;
    let m = lp.constraints@.len() as int;
    assert forall|i: int| 0 <= i < t.obj.len() implies q_wf(#[trigger] t.obj[i]) by {
        if i < m {
            assert(t.obj[i] == row_v(lp.constraints@[i]@)[n]);
            assert(row_wf(row_v(lp.constraints@[i]@)));
            assert(q_wf(row_v(lp.constraints@[i]@)[n]));
        } else {
            assert(t.obj[i] == q_zero());
        }
    }
    assert forall|j: int| 0 <= j < t.rows.len() implies row_wf(#[trigger] t.rows[j]) by {
        assert forall|i: int| 0 <= i < t.rows[j].len() implies q_wf(#[trigger] t.rows[j][i]) by {
            if i < m {
                assert(t.rows[j][i] == row_v(lp.constraints@[i]@)[j]);
                assert(row_wf(row_v(lp.constraints@[i]@)));
                assert(q_wf(row_v(lp.constraints@[i]@)[j]));
            } else if i < m + n {
                assert(t.rows[j][m + (i - m)] == (if i - m == j {
                    (1int, 1int)
                } else {
                    q_zero()
                }));
            } else {
                assert(t.rows[j][m + n] == oriented_obj_v(lp, j));
                assert(row_wf(row_v(lp.objective@)));
                assert(q_wf(row_v(lp.objective@)[j]));
            }
        }
    }
}

} // verus!
