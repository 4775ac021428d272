//! The simplex driver: entering and leaving variable selection and the
//! iteration loop with its stopping conditions.

use vstd::prelude::*;

use crate::error::LpError;
use crate::pivot::{pivot, pivot_ok_v, pivot_v};
use crate::rational::{
    div_q, lemma_div_q_den_pos, lemma_q_le_trans, lemma_q_lt_le_trans, q_le, q_lt, q_wf, q_zero,
    Rat,
};
use crate::tableau::{row_v, row_wf, rows_v, TabV, Tableau};

verus! {

/// The three states of the driver's machine.  `Iterating` is the in-loop
/// state; a finished solve reports one of the other two.
#[derive(Clone, Copy, Debug, PartialEq, Eq, Structural)]
pub enum SolveStatus {
    Iterating,
    OptimalFound,
    Unbounded,
}

/// What a finished solve reports: the terminal state and how many pivots
/// were performed.
pub struct SolveOutcome {
    pub status: SolveStatus,
    pub iterations: usize,
}

/// Greedy largest-coefficient scan of the objective row from entry `k`
/// with the best candidate so far: entries exactly equal to zero are
/// excluded from consideration, and of equal candidates the later one
/// wins.
pub open spec fn entering_from(
    obj: Seq<(int, int)>,
    k: int,
    best: Option<(int, (int, int))>,
) -> Option<(int, (int, int))>
    decreases obj.len() - k when 0 <= k <= obj.len()
{
    if k >= obj.len() {
        best
    } else {
        let e = obj[k];
        let best2 = if e.0 != 0 {
            match best {
                Option::None => Option::Some((k, e)),
                Option::Some(b) => if q_le(b.1, e) {
                    Option::Some((k, e))
                } else {
                    Option::Some(b)
                },
            }
        } else {
            best
        };
        entering_from(obj, k + 1, best2)
    }
}

/// The column the driver enters next: the eligible entry of largest value,
/// provided that value is positive; `None` when every entry is at or below
/// zero, which is the strict optimality test.
pub open spec fn select_entering_q(obj: Seq<(int, int)>) -> Option<int> {
    match entering_from(obj, 0, Option::None) {
        Option::None => Option::None,
        Option::Some(b) => if b.1.0 > 0 {
            Option::Some(b.0)
        } else {
            Option::None
        },
    }
}

/// What the greedy scan guarantees: `None` only when no entry is eligible,
/// and otherwise an eligible entry at least as large as every eligible
/// entry.
pub(crate) proof fn lemma_entering_from(obj: Seq<(int, int)>, k: int, best: Option<(int, (int, int))>)
    requires
        row_wf(obj),
        0 <= k <= obj.len(),
        match best {
            Option::None => forall|i: int| 0 <= i < k ==> (#[trigger] obj[i]).0 == 0,
            Option::Some(b) => 0 <= b.0 < k && obj[b.0] == b.1 && b.1.0 != 0 && forall|i: int|
                0 <= i < k && (#[trigger] obj[i]).0 != 0 ==> q_le(obj[i], b.1),
        },
    ensures
        match entering_from(obj, k, best) {
            Option::None => forall|i: int| 0 <= i < obj.len() ==> (#[trigger] obj[i]).0 == 0,
            Option::Some(b) => 0 <= b.0 < obj.len() && obj[b.0] == b.1 && b.1.0 != 0 && forall|
                i: int,
            | 0 <= i < obj.len() && (#[trigger] obj[i]).0 != 0 ==> q_le(obj[i], b.1),
        },
    decreases obj.len() - k,
{
    if k < obj.len() {
        let e = obj[k];
        let best2 = if e.0 != 0 {
            match best {
                Option::None => Option::Some((k, e)),
                Option::Some(b) => if q_le(b.1, e) {
                    Option::Some((k, e))
                } else {
                    Option::Some(b)
                },
            }
        } else {
            best
        };
        if e.0 != 0 {
            match best {
                Option::None => {},
                Option::Some(b) => {
                    if q_le(b.1, e) {
                        assert forall|i: int|
                            0 <= i < k + 1 && (#[trigger] obj[i]).0 != 0 implies q_le(
                            obj[i],
                            e,
                        ) by {
                            if i < k {
                                lemma_q_le_trans(obj[i], b.1, e);
                            }
                        }
                    }
                },
            }
        }
        lemma_entering_from(obj, k + 1, best2);
    }
}

/// Entering-variable selection: among the objective-row entries, the
/// column with the maximum value, entries exactly equal to zero excluded;
/// `None` when every eligible entry is at or below zero.  Returns exactly
/// what `select_entering_q` denotes; on `None` every entry of the row is
/// at or below zero.
pub fn select_entering(obj: &Vec<Rat>) -> (r: Option<usize>)
    requires
        row_wf(row_v(obj@)),
    ensures
        r is None <==> select_entering_q(row_v(obj@)) is None,
        r is Some ==> select_entering_q(row_v(obj@)) == Option::Some(r.unwrap() as int),
        r is Some ==> r.unwrap() < obj@.len() && row_v(obj@)[r.unwrap() as int].0 > 0,
        r is Some ==> forall|k: int|
            0 <= k < obj@.len() && (#[trigger] row_v(obj@)[k]).0 != 0 ==> q_le(
                row_v(obj@)[k],
                row_v(obj@)[r.unwrap() as int],
            ),
        r is None ==> forall|k: int|
            0 <= k < obj@.len() ==> q_le(#[trigger] row_v(obj@)[k], q_zero()),
{
    let ghost ov = row_v(obj@);
    let mut best_idx: usize = 0;
    let mut best: Rat = Rat::zero();
    let mut have: bool = false;
    let mut k: usize = 0;
    while k < obj.len()
        invariant
            k <= obj@.len(),
            row_wf(ov),
            ov == row_v(obj@),
            ov.len() == obj@.len(),
            best.wf(),
            have ==> best_idx < k && ov[best_idx as int] == best@,
            entering_from(ov, 0, Option::None) == entering_from(
                ov,
                k as int,
                if have {
                    Option::Some((best_idx as int, best@))
                } else {
                    Option::None
                },
            ),
        decreases obj@.len() - k,
    {
        let e = obj[k];
        proof {
            assert(row_v(obj@)[k as int] == obj@[k as int]@);
            assert(q_wf(e@));
        }
        let ghost prev: Option<(int, (int, int))> = if have {
            Option::Some((best_idx as int, best@))
        } else {
            Option::None
        };
        if !e.is_zero() {
            if !have || best.le(e) {
                best = e;
                best_idx = k;
                have = true;
            }
        }
        proof {
            let cur: Option<(int, (int, int))> = if have {
                Option::Some((best_idx as int, best@))
            } else {
                Option::None
            };
            assert(entering_from(ov, k as int, prev) == entering_from(ov, k as int + 1, cur));
        }
        k += 1;
    }
    proof {
        lemma_entering_from(ov, 0, Option::None);
    }
    if have {
        if best.is_pos() {
            Some(best_idx)
        } else {
            proof {
                assert forall|q: int| 0 <= q < ov.len() implies q_le(#[trigger] ov[q], q_zero()) by {
                    assert(q_wf(ov[q]));
                    if ov[q].0 != 0 {
                        assert(q_le(ov[q], best@));
                        lemma_q_le_trans(ov[q], best@, q_zero());
                    }
                }
            }
            None
        }
    } else {
        proof {
            assert forall|q: int| 0 <= q < ov.len() implies q_le(#[trigger] ov[q], q_zero()) by {
                assert(q_wf(ov[q]));
            }
        }
        None
    }
}

/// The minimum-ratio candidate of one row for entering column `col`: the
/// right-hand side divided by the entering-column coefficient when both
/// are non-negative or both negative, and no candidate (the row is
/// excluded) otherwise.  In exact arithmetic a zero coefficient yields no
/// finite ratio, so it is excluded as well.
pub open spec fn ratio_q(coeff: (int, int), rhs: (int, int)) -> Option<(int, int)> {
    if coeff.0 > 0 && rhs.0 >= 0 {
        Option::Some(div_q(rhs, coeff))
    } else if coeff.0 < 0 && rhs.0 < 0 {
        Option::Some(div_q(rhs, coeff))
    } else {
        Option::None
    }
}

/// The ratio candidate of row `j` of the tableau, whose last entry is the
/// right-hand side.
pub open spec fn row_ratio(rows: Seq<Seq<(int, int)>>, col: int, j: int) -> Option<(int, int)> {
    let row = rows[j];
    ratio_q(row[col], row[row.len() - 1])
}

/// Whether every finite ratio of the column fits the 64-bit
/// representation; leaving-row selection fails with `ArithmeticOverflow`
/// exactly when this is false.
pub open spec fn ratios_ok(rows: Seq<Seq<(int, int)>>, col: int) -> bool {
    forall|j: int|
        0 <= j < rows.len() && (#[trigger] row_ratio(rows, col, j)) is Some ==> q_wf(
            row_ratio(rows, col, j).unwrap(),
        )
}

/// Scan of the rows from `j` with the best (row, ratio) candidate so far:
/// rows without a finite ratio are skipped, and only a strictly smaller
/// ratio replaces the candidate, so of equal ratios the earliest row wins.
pub open spec fn leaving_from(
    rows: Seq<Seq<(int, int)>>,
    col: int,
    j: int,
    best: Option<(int, (int, int))>,
) -> Option<(int, (int, int))>
    decreases rows.len() - j when 0 <= j <= rows.len()
{
    if j >= rows.len() {
        best
    } else {
        let best2 = match (row_ratio(rows, col, j), best) {
            (Option::None, b) => b,
            (Option::Some(ra), Option::None) => Option::Some((j, ra)),
            (Option::Some(ra), Option::Some(b)) => if q_lt(ra, b.1) {
                Option::Some((j, ra))
            } else {
                Option::Some(b)
            },
        };
        leaving_from(rows, col, j + 1, best2)
    }
}

/// The row that leaves the basis for entering column `col`: the row of
/// minimum finite ratio, the earliest on a tie; `None` when no row has a
/// finite ratio.
pub open spec fn select_leaving_q(rows: Seq<Seq<(int, int)>>, col: int) -> Option<
    (int, (int, int)),
> {
    leaving_from(rows, col, 0, Option::None)
}

/// Rows on which ratio selection is meaningful: well-formed entries and
/// the entering column strictly before the right-hand side.
pub open spec fn ratio_rows_wf(rows: Seq<Seq<(int, int)>>, col: int) -> bool {
    &&& forall|j: int| 0 <= j < rows.len() ==> row_wf(#[trigger] rows[j])
    &&& forall|j: int| 0 <= j < rows.len() ==> (#[trigger] rows[j]).len() >= col + 2
    &&& 0 <= col
}

/// A finite ratio of a well-formed row has a positive denominator.
proof fn lemma_row_ratio_den_pos(rows: Seq<Seq<(int, int)>>, col: int, j: int)
    requires
        ratio_rows_wf(rows, col),
        0 <= j < rows.len(),
        row_ratio(rows, col, j) is Some,
    ensures
        row_ratio(rows, col, j).unwrap().1 >= 1,
{
    let row = rows[j];
    assert(q_wf(row[col]));
    assert(q_wf(row[row.len() - 1]));
    lemma_div_q_den_pos(row[row.len() - 1], row[col]);
}

/// What the minimum-ratio scan guarantees: `None` only when no row has a
/// finite ratio, and otherwise a row whose finite ratio is minimal, the
/// earliest such row on a tie.
proof fn lemma_leaving_from(
    rows: Seq<Seq<(int, int)>>,
    col: int,
    j: int,
    best: Option<(int, (int, int))>,
)
    requires
        ratio_rows_wf(rows, col),
        0 <= j <= rows.len(),
        match best {
            Option::None => forall|i: int| 0 <= i < j ==> (#[trigger] row_ratio(rows, col, i))
                is None,
            Option::Some(b) => 0 <= b.0 < j && row_ratio(rows, col, b.0) == Option::Some(b.1)
                && (forall|i: int|
                0 <= i < j && (#[trigger] row_ratio(rows, col, i)) is Some ==> q_le(
                    b.1,
                    row_ratio(rows, col, i).unwrap(),
                )) && (forall|i: int|
                0 <= i < b.0 && (#[trigger] row_ratio(rows, col, i)) is Some ==> q_lt(
                    b.1,
                    row_ratio(rows, col, i).unwrap(),
                )),
        },
    ensures
        match leaving_from(rows, col, j, best) {
            Option::None => forall|i: int|
                0 <= i < rows.len() ==> (#[trigger] row_ratio(rows, col, i)) is None,
            Option::Some(b) => 0 <= b.0 < rows.len() && row_ratio(rows, col, b.0) == Option::Some(
                b.1,
            ) && (forall|i: int|
                0 <= i < rows.len() && (#[trigger] row_ratio(rows, col, i)) is Some ==> q_le(
                    b.1,
                    row_ratio(rows, col, i).unwrap(),
                )) && (forall|i: int|
                0 <= i < b.0 && (#[trigger] row_ratio(rows, col, i)) is Some ==> q_lt(
                    b.1,
                    row_ratio(rows, col, i).unwrap(),
                )),
        },
    decreases rows.len() - j,
{
    if j < rows.len() {
        let cand = row_ratio(rows, col, j);
        let best2 = match (cand, best) {
            (Option::None, b) => b,
            (Option::Some(ra), Option::None) => Option::Some((j, ra)),
            (Option::Some(ra), Option::Some(b)) => if q_lt(ra, b.1) {
                Option::Some((j, ra))
            } else {
                Option::Some(b)
            },
        };
        match (cand, best) {
            (Option::None, _) => {},
            (Option::Some(ra), Option::None) => {},
            (Option::Some(ra), Option::Some(b)) => {
                lemma_row_ratio_den_pos(rows, col, j);
                lemma_row_ratio_den_pos(rows, col, b.0);
                if q_lt(ra, b.1) {
                    assert forall|i: int|
                        0 <= i < j + 1 && (#[trigger] row_ratio(rows, col, i))
                            is Some implies q_le(ra, row_ratio(rows, col, i).unwrap()) by {
                        if i < j {
                            lemma_row_ratio_den_pos(rows, col, i);
                            lemma_q_lt_le_trans(ra, b.1, row_ratio(rows, col, i).unwrap());
                        }
                    }
                    assert forall|i: int|
                        0 <= i < j && (#[trigger] row_ratio(rows, col, i))
                            is Some implies q_lt(ra, row_ratio(rows, col, i).unwrap()) by {
                        lemma_row_ratio_den_pos(rows, col, i);
                        lemma_q_lt_le_trans(ra, b.1, row_ratio(rows, col, i).unwrap());
                    }
                }
            },
        }
        lemma_leaving_from(rows, col, j + 1, best2);
    }
}

/// Leaving-variable selection by the minimum-ratio test over the rows, for
/// entering column `col`.
///
/// Returns the index denoted by `select_leaving_q`: the row of minimum
/// finite ratio (earliest on a tie), or `None` — the unbounded case —
/// when no row has a finite ratio.  Fails with `ArithmeticOverflow`
/// exactly when some finite ratio leaves the 64-bit range.
pub fn select_leaving(rows: &Vec<Vec<Rat>>, col: usize) -> (r: Result<Option<usize>, LpError>)
    requires
        ratio_rows_wf(rows_v(rows@), col as int),
    ensures
        r is Ok <==> ratios_ok(rows_v(rows@), col as int),
        r is Err ==> r == Err::<Option<usize>, LpError>(LpError::ArithmeticOverflow),
        r is Ok ==> match select_leaving_q(rows_v(rows@), col as int) {
            Option::None => r.unwrap() is None,
            Option::Some(b) => r.unwrap() is Some && r.unwrap().unwrap() as int == b.0,
        },
        r is Ok && r.unwrap() is None ==> forall|i: int|
            0 <= i < rows@.len() ==> (#[trigger] row_ratio(rows_v(rows@), col as int, i)) is None,
        r is Ok && r.unwrap() is Some ==> ({
            let i = r.unwrap().unwrap() as int;
            let rv = rows_v(rows@);
            &&& i < rows@.len()
            &&& row_ratio(rv, col as int, i) is Some
            &&& rv[i][col as int].0 != 0
            &&& forall|q: int|
                0 <= q < rv.len() && (#[trigger] row_ratio(rv, col as int, q)) is Some ==> q_le(
                    row_ratio(rv, col as int, i).unwrap(),
                    row_ratio(rv, col as int, q).unwrap(),
                )
            &&& forall|q: int|
                0 <= q < i && (#[trigger] row_ratio(rv, col as int, q)) is Some ==> q_lt(
                    row_ratio(rv, col as int, i).unwrap(),
                    row_ratio(rv, col as int, q).unwrap(),
                )
        }),
{
    let ghost rv = rows_v(rows@);
    let mut best_idx: usize = 0;
    let mut best: Rat = Rat::zero();
    let mut have: bool = false;
    let mut j: usize = 0;
    while j < rows.len()
        invariant
            j <= rows@.len(),
            rv == rows_v(rows@),
            rv.len() == rows@.len(),
            ratio_rows_wf(rv, col as int),
            best.wf(),
            have ==> best_idx < j && row_ratio(rv, col as int, best_idx as int) == Option::Some(
                best@,
            ),
            forall|q: int|
                0 <= q < j as int && (#[trigger] row_ratio(rv, col as int, q)) is Some ==> q_wf(
                    row_ratio(rv, col as int, q).unwrap(),
                ),
            leaving_from(rv, col as int, 0, Option::None) == leaving_from(
                rv,
                col as int,
                j as int,
                if have {
                    Option::Some((best_idx as int, best@))
                } else {
                    Option::None
                },
            ),
        decreases rows@.len() - j,
    {
        proof {
            assert(rv[j as int] == row_v(rows@[j as int]@));
            assert(rv[j as int].len() == rows@[j as int]@.len());
            assert(row_v(rows@[j as int]@)[col as int] == rows@[j as int]@[col as int]@);
            assert(row_v(rows@[j as int]@)[rv[j as int].len() - 1] == rows@[j as int]@[rows@[
                j as int
            ]@.len() - 1]@);
            assert(q_wf(rv[j as int][col as int]));
            assert(q_wf(rv[j as int][rv[j as int].len() - 1]));
        }
        let row = &rows[j];
        let coeff = row[col];
        let rhs = row[row.len() - 1];
        let ghost prev: Option<(int, (int, int))> = if have {
            Option::Some((best_idx as int, best@))
        } else {
            Option::None
        };
        let cand: Option<Rat> = if coeff.is_pos() && !rhs.is_neg() {
            match rhs.div(coeff) {
                Ok(v) => Some(v),
                Err(e) => {
                    proof {
                        assert(row_ratio(rv, col as int, j as int) is Some);
                        assert(!q_wf(row_ratio(rv, col as int, j as int).unwrap()));
                        assert(!ratios_ok(rv, col as int));
                    }
                    return Err(e);
                },
            }
        } else if coeff.is_neg() && rhs.is_neg() {
            match rhs.div(coeff) {
                Ok(v) => Some(v),
                Err(e) => {
                    proof {
                        assert(row_ratio(rv, col as int, j as int) is Some);
                        assert(!q_wf(row_ratio(rv, col as int, j as int).unwrap()));
                        assert(!ratios_ok(rv, col as int));
                    }
                    return Err(e);
                },
            }
        } else {
            proof {
                assert(row_ratio(rv, col as int, j as int) is None);
            }
            None
        };
        match cand {
            Some(ra) => {
                proof {
                    assert(row_ratio(rv, col as int, j as int) == Option::Some(ra@));
                }
                if !have {
                    best = ra;
                    best_idx = j;
                    have = true;
                } else if ra.lt(best) {
                    best = ra;
                    best_idx = j;
                }
            },
            None => {},
        }
        proof {
            let cur: Option<(int, (int, int))> = if have {
                Option::Some((best_idx as int, best@))
            } else {
                Option::None
            };
            assert(leaving_from(rv, col as int, j as int, prev) == leaving_from(
                rv,
                col as int,
                j as int + 1,
                cur,
            ));
        }
        j += 1;
    }
    proof {
        lemma_leaving_from(rv, col as int, 0, Option::None);
    }
    if have {
        Ok(Some(best_idx))
    } else {
        Ok(None)
    }
}

/// What a run of the driver denotes: the terminal state, the final
/// tableau, and (when it finished) the number of pivots performed.
pub ghost enum RunOutcome {
    Optimal { t: TabV, iters: nat },
    Unbounded { t: TabV, iters: nat },
    CapExceeded { t: TabV },
    Overflow,
}

/// Adds already-performed pivots to the iteration count of an outcome.
pub open spec fn add_iters(r: RunOutcome, k: nat) -> RunOutcome {
    match r {
        RunOutcome::Optimal { t, iters } => RunOutcome::Optimal { t, iters: iters + k },
        RunOutcome::Unbounded { t, iters } => RunOutcome::Unbounded { t, iters: iters + k },
        other => other,
    }
}

/// The driver, denoted as a function of the starting tableau and the
/// remaining iteration budget: select the entering column (none eligible
/// means optimality), stop at the cap, select the leaving row by minimum
/// ratio (none means unboundedness), pivot, recurse.
pub open spec fn run_v(t: TabV, fuel: nat) -> RunOutcome
    decreases fuel,
{
    match select_entering_q(t.obj) {
        Option::None => RunOutcome::Optimal { t, iters: 0 },
        Option::Some(col) => {
            if fuel == 0 {
                RunOutcome::CapExceeded { t }
            } else if !ratios_ok(t.rows, col) {
                RunOutcome::Overflow
            } else {
                match select_leaving_q(t.rows, col) {
                    Option::None => RunOutcome::Unbounded { t, iters: 0 },
                    Option::Some(b) => {
                        if !pivot_ok_v(t, b.0, col) {
                            RunOutcome::Overflow
                        } else {
                            add_iters(run_v(pivot_v(t, b.0, col), (fuel - 1) as nat), 1)
                        }
                    },
                }
            }
        },
    }
}

/// The simplex iteration loop, mutating the tableau in place.
///
/// The stopping rule is the strict optimality test: the loop ends in
/// `OptimalFound` when no eligible objective entry is positive, in
/// `Unbounded` when the entering column admits no finite ratio, and with
/// `MaxIterationsExceeded` when as many pivots as objective columns have
/// been performed without either — the safety valve against cycling.
/// `ArithmeticOverflow` reports an exact result that left the 64-bit
/// range.  The outcome and the final tableau are exactly what `run_v`
/// denotes on the starting tableau with the cap as budget; on
/// `OptimalFound` every objective entry is at or below zero, and on
/// `Unbounded` a positive objective column without any finite ratio is a
/// witness.
pub fn solve(t: &mut Tableau) -> (r: Result<SolveOutcome, LpError>)
    requires
        old(t).wf(),
    ensures
        final(t).wf(),
        final(t)@.obj.len() == old(t)@.obj.len(),
        final(t)@.rows.len() == old(t)@.rows.len(),
        ({
            let res = run_v(old(t)@, old(t)@.obj.len() as nat);
            match r {
                Ok(out) => {
                    &&& (out.status is OptimalFound || out.status is Unbounded)
                    &&& out.status is OptimalFound ==> res == (RunOutcome::Optimal {
                        t: final(t)@,
                        iters: out.iterations as nat,
                    })
                    &&& out.status is Unbounded ==> res == (RunOutcome::Unbounded {
                        t: final(t)@,
                        iters: out.iterations as nat,
                    })
                    &&& out.iterations as int <= old(t)@.obj.len()
                },
                Err(e) => {
                    &&& (e == LpError::MaxIterationsExceeded || e == LpError::ArithmeticOverflow)
                    &&& e == LpError::MaxIterationsExceeded ==> res == (RunOutcome::CapExceeded {
                        t: final(t)@,
                    })
                    &&& e == LpError::ArithmeticOverflow ==> res is Overflow
                },
            }
        }),
        r is Ok && r.unwrap().status is OptimalFound ==> forall|k: int|
            0 <= k < final(t)@.obj.len() ==> q_le(#[trigger] final(t)@.obj[k], q_zero()),
        r is Ok && r.unwrap().status is Unbounded ==> exists|col: int|
            0 <= col < final(t)@.obj.len() && (#[trigger] final(t)@.obj[col]).0 > 0 && forall|
                j: int,
            | 0 <= j < final(t)@.rows.len() ==> (#[trigger] row_ratio(final(t)@.rows, col, j))
                is None,
{
    let ghost t0 = t@;
    let cap = t.objective_row.len();
    proof {
        assert(cap as int == t0.obj.len());
    }
    let mut i: usize = 0;
    loop
        invariant
            t0 == old(t)@,
            t.wf(),
            i <= cap,
            cap as int == t0.obj.len(),
            t@.obj.len() == t0.obj.len(),
            t@.rows.len() == t0.rows.len(),
            add_iters(run_v(t@, (cap - i) as nat), i as nat) == run_v(t0, cap as nat),
        decreases cap - i,
    {
        proof {
            assert(t@.obj == row_v(t.objective_row@));
        }
        let sel = select_entering(&t.objective_row);
        match sel {
            None => {
                proof {
                    assert(run_v(t@, (cap - i) as nat) == (RunOutcome::Optimal {
                        t: t@,
                        iters: 0nat,
                    }));
                }
                return Ok(SolveOutcome { status: SolveStatus::OptimalFound, iterations: i });
            },
            Some(col) => {
                if i >= cap {
                    proof {
                        assert(run_v(t@, 0nat) == (RunOutcome::CapExceeded { t: t@ }));
                    }
                    return Err(LpError::MaxIterationsExceeded);
                }
                proof {
                    assert forall|j: int| 0 <= j < t@.rows.len() implies row_wf(
                        #[trigger] rows_v(t.rows@)[j],
                    ) && rows_v(t.rows@)[j].len() >= col as int + 2 by {
                        assert(rows_v(t.rows@)[j] == t@.rows[j]);
                    }
                    assert(ratio_rows_wf(rows_v(t.rows@), col as int));
                }
                let leave = select_leaving(&t.rows, col);
                proof {
                    assert(rows_v(t.rows@) == t@.rows);
                }
                match leave {
                    Err(e) => {
                        proof {
                            assert(!ratios_ok(t@.rows, col as int));
                            assert(run_v(t@, (cap - i) as nat) is Overflow);
                        }
                        return Err(e);
                    },
                    Ok(None) => {
                        proof {
                            assert(run_v(t@, (cap - i) as nat) == (RunOutcome::Unbounded {
                                t: t@,
                                iters: 0nat,
                            }));
                        }
                        return Ok(SolveOutcome { status: SolveStatus::Unbounded, iterations: i });
                    },
                    Ok(Some(lr)) => {
                        proof {
                            assert(t@.rows[lr as int][col as int].0 != 0);
                        }
                        let ghost t_before = t@;
                        match pivot(t, lr, col) {
                            Ok(()) => {
                                proof {
                                    assert(t@ == pivot_v(t_before, lr as int, col as int));
                                    assert(run_v(t_before, (cap - i) as nat) == add_iters(
                                        run_v(t@, (cap - i - 1) as nat),
                                        1nat,
                                    ));
                                    lemma_add_iters_twice(
                                        run_v(t@, (cap - i - 1) as nat),
                                        1nat,
                                        i as nat,
                                    );
                                }
                                i += 1;
                            },
                            Err(e) => {
                                proof {
                                    assert(e != LpError::DegeneratePivot);
                                    assert(e == LpError::ArithmeticOverflow);
                                    assert(!pivot_ok_v(t_before, lr as int, col as int));
                                    assert(run_v(t@, (cap - i) as nat) is Overflow);
                                }
                                return Err(e);
                            },
                        }
                    },
                }
            },
        }
    }
}

/// Lifting an outcome by one pivot and then by `k` more is lifting it by
/// `k + 1`.
proof fn lemma_add_iters_twice(r: RunOutcome, a: nat, k: nat)
    ensures
        add_iters(add_iters(r, a), k) == add_iters(r, a + k),
{
}

} // verus!
