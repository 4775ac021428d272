//! The pivot engine: the Gauss-Jordan row transformation of one simplex
//! pivot, exact over rationals.

use vstd::prelude::*;

use crate::builder::negate_row;
use crate::error::LpError;
use crate::rational::{add_q, div_q, mul_q, neg_q, q_wf, q_zero, Rat};
use crate::tableau::{row_v, row_wf, rows_v, TabV, Tableau};

verus! {

/// The pivot row expressed in terms of all other variables: every entry
/// divided by the pivot element and negated, ready to be substituted
/// additively into the other rows.
pub open spec fn transformed_q(row: Seq<(int, int)>, p: (int, int)) -> Seq<(int, int)> {
    row.map_values(|e: (int, int)| neg_q(div_q(e, p)))
}

/// Whether every entry of the transformed pivot row fits the 64-bit
/// representation.
pub open spec fn transform_ok(row: Seq<(int, int)>, p: (int, int)) -> bool {
    forall|k: int| 0 <= k < row.len() ==> q_wf(div_q(#[trigger] row[k], p))
}

/// One non-pivot row after substitution: entry `pc` is explicitly zeroed,
/// every other entry `k` becomes `row[k] + x[k] * mult` where `mult` is the
/// row's old entry in the pivot column.
pub open spec fn updated_row_q(
    row: Seq<(int, int)>,
    x: Seq<(int, int)>,
    mult: (int, int),
    pc: int,
) -> Seq<(int, int)> {
    Seq::new(
        row.len(),
        |k: int|
            if k == pc {
                q_zero()
            } else {
                add_q(row[k], mul_q(x[k], mult))
            },
    )
}

/// Whether every substituted entry of one row fits the 64-bit
/// representation.
pub open spec fn update_ok(
    row: Seq<(int, int)>,
    x: Seq<(int, int)>,
    mult: (int, int),
    pc: int,
) -> bool {
    forall|k: int|
        0 <= k < row.len() && k != pc ==> q_wf(mul_q(#[trigger] x[k], mult)) && q_wf(
            add_q(row[k], mul_q(x[k], mult)),
        )
}

/// The whole tableau after one pivot on `(pr, pc)`: the pivot row is
/// normalized (divided by the pivot element), every other row and the
/// objective row get the substitution, and the running cost accumulates
/// the transformed right-hand side times the old objective entry of the
/// pivot column.
pub open spec fn pivot_v(t: TabV, pr: int, pc: int) -> TabV {
    let p = t.rows[pr][pc];
    let x = transformed_q(t.rows[pr], p);
    TabV {
        obj: updated_row_q(t.obj, x, t.obj[pc], pc),
        rows: Seq::new(
            t.rows.len(),
            |j: int|
                if j == pr {
                    t.rows[pr].map_values(|e: (int, int)| div_q(e, p))
                } else {
                    updated_row_q(t.rows[j], x, t.rows[j][pc], pc)
                },
        ),
        cost: add_q(t.cost, mul_q(x[t.obj.len() as int], t.obj[pc])),
    }
}

/// Whether every intermediate result of the pivot on `(pr, pc)` fits the
/// 64-bit representation; the pivot fails with `ArithmeticOverflow`
/// exactly when this is false.
pub open spec fn pivot_ok_v(t: TabV, pr: int, pc: int) -> bool {
    let p = t.rows[pr][pc];
    let x = transformed_q(t.rows[pr], p);
    &&& transform_ok(t.rows[pr], p)
    &&& forall|j: int|
        0 <= j < t.rows.len() && j != pr ==> update_ok(#[trigger] t.rows[j], x, t.rows[j][pc], pc)
    &&& update_ok(t.obj, x, t.obj[pc], pc)
    &&& q_wf(mul_q(x[t.obj.len() as int], t.obj[pc]))
    &&& q_wf(add_q(t.cost, mul_q(x[t.obj.len() as int], t.obj[pc])))
}

/// Divides every entry of the pivot row by the pivot element and negates
/// it.  This is the entering variable written in terms of the others;
/// fails with `ArithmeticOverflow` exactly when some reduced quotient
/// leaves the 64-bit range.
pub fn transform_equation(row: &Vec<Rat>, p: Rat) -> (r: Result<Vec<Rat>, LpError>)
    requires
        row_wf(row_v(row@)),
        p.wf(),
        p@.0 != 0,
    ensures
        r is Ok <==> transform_ok(row_v(row@), p@),
        r is Ok ==> row_v(r.unwrap()@) == transformed_q(row_v(row@), p@) && row_wf(
            row_v(r.unwrap()@),
        ) && r.unwrap()@.len() == row@.len(),
        r is Err ==> r == Err::<Vec<Rat>, LpError>(LpError::ArithmeticOverflow),
{
    let mut x: Vec<Rat> = Vec::new();
    let mut k: usize = 0;
    while k < row.len()
        invariant
            k <= row@.len(),
            row_wf(row_v(row@)),
            p.wf(),
            p@.0 != 0,
            x@.len() == k as int,
            forall|q: int| 0 <= q < k as int ==> q_wf(div_q((#[trigger] row@[q])@, p@)),
            forall|q: int| 0 <= q < k as int ==> (#[trigger] x@[q])@ == neg_q(div_q(row@[q]@, p@)),
        decreases row@.len() - k,
    {
        proof {
            assert(row_v(row@)[k as int] == row@[k as int]@);
            assert(q_wf(row@[k as int]@));
        }
        match row[k].div(p) {
            Ok(d) => {
                x.push(d.neg());
            },
            Err(e) => {
                proof {
                    assert(row_v(row@)[k as int] == row@[k as int]@);
                    assert(!transform_ok(row_v(row@), p@));
                }
                return Err(e);
            },
        }
        k += 1;
    }
    proof {
        assert forall|q: int| 0 <= q < row@.len() implies q_wf(
            div_q(#[trigger] row_v(row@)[q], p@),
        ) by {
            assert(row_v(row@)[q] == row@[q]@);
        }
        assert(transform_ok(row_v(row@), p@));
        assert(row_v(x@) =~= transformed_q(row_v(row@), p@));
        assert forall|q: int| 0 <= q < x@.len() implies q_wf(#[trigger] row_v(x@)[q]) by {
            assert(row_v(x@)[q] == x@[q]@);
        }
    }
    Ok(x)
}

/// Substitutes the transformed pivot row into one row: entry `pc` is
/// explicitly zeroed, every other entry `k` becomes `row[k] + x[k] * mult`.
/// Fails with `ArithmeticOverflow` exactly when some exact result leaves
/// the 64-bit range.
fn substitute_row(row: &Vec<Rat>, x: &Vec<Rat>, mult: Rat, pc: usize) -> (r: Result<
    Vec<Rat>,
    LpError,
>)
    requires
        row_wf(row_v(row@)),
        row_wf(row_v(x@)),
        mult.wf(),
        row@.len() <= x@.len(),
        pc < row@.len(),
    ensures
        r is Ok <==> update_ok(row_v(row@), row_v(x@), mult@, pc as int),
        r is Ok ==> row_v(r.unwrap()@) == updated_row_q(row_v(row@), row_v(x@), mult@, pc as int)
            && row_wf(row_v(r.unwrap()@)) && r.unwrap()@.len() == row@.len(),
        r is Err ==> r == Err::<Vec<Rat>, LpError>(LpError::ArithmeticOverflow),
{
    let mut out: Vec<Rat> = Vec::new();
    let mut k: usize = 0;
    while k < row.len()
        invariant
            k <= row@.len(),
            row_wf(row_v(row@)),
            row_wf(row_v(x@)),
            mult.wf(),
            row@.len() <= x@.len(),
            pc < row@.len(),
            out@.len() == k as int,
            forall|q: int|
                0 <= q < k as int && q != pc as int ==> q_wf(mul_q((#[trigger] x@[q])@, mult@))
                    && q_wf(add_q(row@[q]@, mul_q(x@[q]@, mult@))),
            forall|q: int|
                0 <= q < k as int ==> (#[trigger] out@[q])@ == (if q == pc as int {
                    q_zero()
                } else {
                    add_q(row@[q]@, mul_q(x@[q]@, mult@))
                }),
        decreases row@.len() - k,
    {
        if k == pc {
            out.push(Rat::zero());
        } else {
            proof {
                assert(row_v(row@)[k as int] == row@[k as int]@);
                assert(row_v(x@)[k as int] == x@[k as int]@);
                assert(q_wf(row@[k as int]@));
                assert(q_wf(x@[k as int]@));
            }
            let prod = match x[k].mul(mult) {
                Ok(v) => v,
                Err(e) => {
                    proof {
                        assert(!update_ok(row_v(row@), row_v(x@), mult@, pc as int));
                    }
                    return Err(e);
                },
            };
            let sum = match row[k].add(prod) {
                Ok(v) => v,
                Err(e) => {
                    proof {
                        assert(!update_ok(row_v(row@), row_v(x@), mult@, pc as int));
                    }
                    return Err(e);
                },
            };
            out.push(sum);
        }
        k += 1;
    }
    proof {
        assert forall|q: int|
            0 <= q < row@.len() && q != pc as int implies q_wf(
            mul_q(#[trigger] row_v(x@)[q], mult@),
        ) && q_wf(add_q(row_v(row@)[q], mul_q(row_v(x@)[q], mult@))) by {
            assert(row_v(x@)[q] == x@[q]@);
            assert(row_v(row@)[q] == row@[q]@);
        }
        assert(update_ok(row_v(row@), row_v(x@), mult@, pc as int));
        assert(row_v(out@) =~= updated_row_q(row_v(row@), row_v(x@), mult@, pc as int));
        assert forall|q: int| 0 <= q < out@.len() implies q_wf(#[trigger] row_v(out@)[q]) by {
            assert(row_v(out@)[q] == out@[q]@);
        }
    }
    Ok(out)
}

/// Performs the pivot on `(pivot_row, pivot_col)` in place.
///
/// Fails with `DegeneratePivot` exactly when the pivot element is zero —
/// the division would be undefined, so the engine fails loudly instead of
/// proceeding — and with `ArithmeticOverflow` exactly when some exact
/// intermediate result leaves the 64-bit range.  On failure the tableau is
/// unchanged.
pub fn pivot(t: &mut Tableau, pivot_row: usize, pivot_col: usize) -> (r: Result<(), LpError>)
    requires
        old(t).wf(),
        pivot_row < old(t)@.rows.len(),
        pivot_col < old(t)@.obj.len(),
    ensures
        final(t).wf(),
        r is Err ==> final(t)@ == old(t)@,
        r == Err::<(), LpError>(LpError::DegeneratePivot) <==> old(t)@.rows[pivot_row as int][
            pivot_col as int
        ].0 == 0,
        r is Ok <==> old(t)@.rows[pivot_row as int][pivot_col as int].0 != 0 && pivot_ok_v(
            old(t)@,
            pivot_row as int,
            pivot_col as int,
        ),
        r is Ok ==> final(t)@ == pivot_v(old(t)@, pivot_row as int, pivot_col as int),
        r is Err ==> r == Err::<(), LpError>(LpError::DegeneratePivot) || r == Err::<(
        ), LpError>(LpError::ArithmeticOverflow),
{
    let ghost pr = pivot_row as int;
    let ghost pc = pivot_col as int;
    let ghost t0 = t@;
    proof {
        assert(t@.rows.len() == t.rows@.len());
        assert(t@.rows[pr] == row_v(t.rows@[pr]@));
        assert(t@.rows[pr].len() == t@.obj.len() + 1);
        assert(t@.obj.len() == t.objective_row@.len());
        assert(row_v(t.rows@[pr]@)[pc] == t.rows@[pr]@[pc]@);
    }
    let p = t.rows[pivot_row][pivot_col];
    if p.is_zero() {
        return Err(LpError::DegeneratePivot);
    }
    proof {
        assert(q_wf(t0.rows[pr][pc]));
    }
    let x = match transform_equation(&t.rows[pivot_row], p) {
        Ok(x) => x,
        Err(e) => {
            proof {
                assert(!pivot_ok_v(t0, pr, pc));
            }
            return Err(e);
        },
    };
    let ghost xv = row_v(x@);
    proof {
        assert(xv == transformed_q(t0.rows[pr], t0.rows[pr][pc]));
    }
    let nrows = t.rows.len();
    let mut new_rows: Vec<Vec<Rat>> = Vec::new();
    let mut j: usize = 0;
    while j < nrows
        invariant
            j <= nrows,
            t@ == t0,
            t.wf(),
            nrows == t0.rows.len(),
            0 <= pr < nrows,
            pr == pivot_row as int,
            pc == pivot_col as int,
            0 <= pc < t0.obj.len(),
            t0.rows[pr][pc].0 != 0,
            p@ == t0.rows[pr][pc],
            p.wf(),
            x@.len() == t0.obj.len() + 1,
            xv == row_v(x@),
            xv == transformed_q(t0.rows[pr], t0.rows[pr][pc]),
            row_wf(xv),
            transform_ok(t0.rows[pr], t0.rows[pr][pc]),
            new_rows@.len() == j as int,
            forall|q: int|
                0 <= q < j as int && q != pr ==> update_ok(
                    #[trigger] t0.rows[q],
                    xv,
                    t0.rows[q][pc],
                    pc,
                ),
            forall|q: int|
                0 <= q < j as int ==> row_v((#[trigger] new_rows@[q])@) == pivot_v(
                    t0,
                    pr,
                    pc,
                ).rows[q],
            forall|q: int| 0 <= q < j as int ==> row_wf(row_v((#[trigger] new_rows@[q])@)),
        decreases nrows - j,
    {
        proof {
            assert(t@.rows[j as int] == row_v(t.rows@[j as int]@));
        }
        if j == pivot_row {
            // the pivot row itself, normalized: the negation of the
            // transformed row is exactly the division by the pivot element
            let nr = negate_row(&x);
            proof {
                assert(row_v(nr@) =~= pivot_v(t0, pr, pc).rows[pr]);
            }
            new_rows.push(nr);
        } else {
            let mult = t.rows[j][pivot_col];
            proof {
                assert(row_v(t.rows@[j as int]@)[pc] == t.rows@[j as int]@[pc]@);
                assert(mult@ == t0.rows[j as int][pc]);
                assert(q_wf(mult@));
            }
            let nr = match substitute_row(&t.rows[j], &x, mult, pivot_col) {
                Ok(v) => v,
                Err(e) => {
                    proof {
                        assert(!update_ok(t0.rows[j as int], xv, t0.rows[j as int][pc], pc));
                        assert(!pivot_ok_v(t0, pr, pc));
                    }
                    return Err(e);
                },
            };
            proof {
                assert(row_v(nr@) =~= pivot_v(t0, pr, pc).rows[j as int]);
            }
            new_rows.push(nr);
        }
        j += 1;
    }
    // the same substitution applied to the objective row, with the cost
    // accumulating the transformed right-hand side times the old objective
    // entry of the pivot column
    proof {
        assert(t@.obj == row_v(t.objective_row@));
        assert(row_v(t.objective_row@)[pc] == t.objective_row@[pc]@);
    }
    let mult = t.objective_row[pivot_col];
    let olen = t.objective_row.len();
    let new_obj = match substitute_row(&t.objective_row, &x, mult, pivot_col) {
        Ok(v) => v,
        Err(e) => {
            proof {
                assert(!update_ok(t0.obj, xv, t0.obj[pc], pc));
                assert(!pivot_ok_v(t0, pr, pc));
            }
            return Err(e);
        },
    };
    proof {
        assert(row_v(x@)[olen as int] == x@[olen as int]@);
        assert(q_wf(xv[olen as int]));
    }
    let prod = match x[olen].mul(mult) {
        Ok(v) => v,
        Err(e) => {
            proof {
                assert(!pivot_ok_v(t0, pr, pc));
            }
            return Err(e);
        },
    };
    let new_cost = match t.running_cost.add(prod) {
        Ok(v) => v,
        Err(e) => {
            proof {
                assert(!pivot_ok_v(t0, pr, pc));
            }
            return Err(e);
        },
    };
    t.rows = new_rows;
    t.objective_row = new_obj;
    t.running_cost = new_cost;
    proof {
        assert(t@.obj == row_v(new_obj@));
        assert(t@.obj == pivot_v(t0, pr, pc).obj);
        assert forall|q: int| 0 <= q < t@.rows.len() implies #[trigger] t@.rows[q] == pivot_v(
            t0,
            pr,
            pc,
        ).rows[q] by {
            assert(rows_v(new_rows@)[q] == row_v(new_rows@[q]@));
        }
        assert(t@.rows =~= pivot_v(t0, pr, pc).rows);
        assert(t@.cost == pivot_v(t0, pr, pc).cost);
        assert(t@ == pivot_v(t0, pr, pc));
        assert(pivot_ok_v(t0, pr, pc));
        assert forall|q: int| 0 <= q < t@.rows.len() implies row_wf(#[trigger] t@.rows[q]) by {
            assert(rows_v(new_rows@)[q] == row_v(new_rows@[q]@));
        }
        assert(t.wf());
    }
    Ok(())
}

} // verus!
