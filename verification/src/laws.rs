//! Crate-wide properties, each stated and proved over the specification
//! functions that the components' own contracts use.

use vstd::prelude::*;

use crate::driver::{entering_from, lemma_entering_from, select_entering_q};
use crate::extract::{argmax_col_q, extracted_q, lemma_argmax_in_range};
use crate::pivot::pivot_v;
use crate::rational::{div_q, norm_q, q_eq, q_le, q_wf, q_zero, Rat};
use crate::tableau::{row_wf, TabV};

verus! {

/// Transposing twice restores the matrix: the involution half of the
/// duality round trip.  The two hypotheses state exactly what
/// `transpose_matrix` ensures of each step.
pub proof fn lemma_transpose_involution(m: Seq<Vec<Rat>>, t: Seq<Vec<Rat>>, u: Seq<Vec<Rat>>)
    requires
        m.len() >= 1,
        m[0]@.len() >= 1,
        forall|j: int| 0 <= j < m.len() ==> (#[trigger] m[j]@).len() == m[0]@.len(),
        t.len() == m[0]@.len(),
        forall|i: int| 0 <= i < t.len() ==> (#[trigger] t[i]@).len() == m.len(),
        forall|i: int, j: int| 0 <= i < t.len() && 0 <= j < m.len() ==> #[trigger] t[i]@[j]
            == m[j]@[i],
        u.len() == t[0]@.len(),
        forall|i: int| 0 <= i < u.len() ==> (#[trigger] u[i]@).len() == t.len(),
        forall|i: int, j: int| 0 <= i < u.len() && 0 <= j < t.len() ==> #[trigger] u[i]@[j]
            == t[j]@[i],
    ensures
        u.len() == m.len(),
        forall|j: int| 0 <= j < m.len() ==> (#[trigger] u[j]@).len() == m[j]@.len(),
        forall|j: int, i: int| 0 <= j < m.len() && 0 <= i < m[0]@.len() ==> #[trigger] u[j]@[i]
            == m[j]@[i],
{
    assert(t[0]@.len() == m.len());
    assert forall|j: int, i: int|
        0 <= j < m.len() && 0 <= i < m[0]@.len() implies #[trigger] u[j]@[i] == m[j]@[i] by {
        assert(u[j]@[i] == t[i]@[j]);
        assert(t[i]@[j] == m[j]@[i]);
    }
}

/// Non-negativity of basic extraction: when every right-hand side of the
/// terminal tableau is non-negative, every value the extractor reports is
/// non-negative.  (The extractor reads right-hand sides, or reports an
/// exact zero.)
pub proof fn lemma_extraction_nonnegative(t: TabV, n_decision: int)
    requires
        t.wf(),
        t.rows.len() >= 1,
        0 <= n_decision <= t.obj.len(),
        forall|i: int|
            0 <= i < t.rows.len() ==> q_le(
                q_zero(),
                (#[trigger] t.rows[i])[t.rows[i].len() - 1],
            ),
    ensures
        forall|j: int| 0 <= j < n_decision ==> q_le(q_zero(), extracted_q(t, j)),
{
    assert forall|j: int| 0 <= j < n_decision implies q_le(q_zero(), extracted_q(t, j)) by {
        if t.obj[j].0 == 0 {
            lemma_argmax_in_range(t.rows, j, 1, 0);
            let r = argmax_col_q(t.rows, j);
            assert(q_le(q_zero(), t.rows[r][t.rows[r].len() - 1]));
        }
    }
}

/// Idempotent termination: once every objective-row entry is at or below
/// zero — which the driver guarantees whenever it reports `OptimalFound`
/// — one more entering-variable selection finds no eligible column.
pub proof fn lemma_optimal_is_stable(obj: Seq<(int, int)>)
    requires
        row_wf(obj),
        forall|k: int| 0 <= k < obj.len() ==> q_le(#[trigger] obj[k], q_zero()),
    ensures
        select_entering_q(obj) is None,
{
    lemma_entering_from(obj, 0, Option::None);
    match entering_from(obj, 0, Option::None) {
        Option::None => {},
        Option::Some(b) => {
            assert(obj[b.0] == b.1);
            assert(q_le(obj[b.0], q_zero()));
            assert(b.1.0 * 1 <= 0 * b.1.1);
            assert(0 * b.1.1 == 0) by (nonlinear_arith);
            assert(b.1.0 <= 0);
        },
    }
}

/// Two value-equal pairs with positive denominators have numerators of the
/// same sign.
proof fn lemma_q_eq_sign(a: (int, int), b: (int, int))
    requires
        a.1 >= 1,
        b.1 >= 1,
        q_eq(a, b),
    ensures
        a.0 > 0 <==> b.0 > 0,
        a.0 == 0 <==> b.0 == 0,
        a.0 < 0 <==> b.0 < 0,
{
    assert((a.0 > 0 <==> b.0 > 0) && (a.0 == 0 <==> b.0 == 0) && (a.0 < 0 <==> b.0 < 0))
        by (nonlinear_arith)
        requires
            a.1 >= 1,
            b.1 >= 1,
            a.0 * b.1 == b.0 * a.1,
    ;
}

/// The order of rational pairs respects value equality.
proof fn lemma_q_le_congruence(a1: (int, int), a2: (int, int), b1: (int, int), b2: (int, int))
    requires
        a1.1 >= 1,
        a2.1 >= 1,
        b1.1 >= 1,
        b2.1 >= 1,
        q_eq(a1, a2),
        q_eq(b1, b2),
    ensures
        q_le(a1, b1) <==> q_le(a2, b2),
{
    assert((a1.0 * b1.1 <= b1.0 * a1.1) <==> (a2.0 * b2.1 <= b2.0 * a2.1)) by (nonlinear_arith)
        requires
            a1.1 >= 1,
            a2.1 >= 1,
            b1.1 >= 1,
            b2.1 >= 1,
            a1.0 * a2.1 == a2.0 * a1.1,
            b1.0 * b2.1 == b2.0 * b1.1,
    ;
}

/// The greedy scan picks the same column on two objective rows that are
/// equal in value entry by entry.
proof fn lemma_entering_from_congruence(
    o1: Seq<(int, int)>,
    o2: Seq<(int, int)>,
    k: int,
    b1: Option<(int, (int, int))>,
    b2: Option<(int, (int, int))>,
)
    requires
        row_wf(o1),
        row_wf(o2),
        o1.len() == o2.len(),
        forall|i: int| 0 <= i < o1.len() ==> q_eq(#[trigger] o1[i], #[trigger] o2[i]),
        0 <= k <= o1.len(),
        match (b1, b2) {
            (Option::None, Option::None) => true,
            (Option::Some(x), Option::Some(y)) => x.0 == y.0 && 0 <= x.0 < k && x.1 == o1[x.0]
                && y.1 == o2[y.0],
            _ => false,
        },
    ensures
        match (entering_from(o1, k, b1), entering_from(o2, k, b2)) {
            (Option::None, Option::None) => true,
            (Option::Some(x), Option::Some(y)) => x.0 == y.0 && 0 <= x.0 < o1.len() && x.1 == o1[
                x.0
            ] && y.1 == o2[y.0],
            _ => false,
        },
    decreases o1.len() - k,
{
    if k < o1.len() {
        let e1 = o1[k];
        let e2 = o2[k];
        assert(q_wf(e1));
        assert(q_wf(e2));
        lemma_q_eq_sign(e1, e2);
        let n1 = if e1.0 != 0 {
            match b1 {
                Option::None => Option::Some((k, e1)),
                Option::Some(b) => if q_le(b.1, e1) {
                    Option::Some((k, e1))
                } else {
                    Option::Some(b)
                },
            }
        } else {
            b1
        };
        let n2 = if e2.0 != 0 {
            match b2 {
                Option::None => Option::Some((k, e2)),
                Option::Some(b) => if q_le(b.1, e2) {
                    Option::Some((k, e2))
                } else {
                    Option::Some(b)
                },
            }
        } else {
            b2
        };
        match (b1, b2) {
            (Option::Some(x), Option::Some(y)) => {
                assert(q_wf(x.1));
                assert(q_wf(y.1));
                assert(q_eq(x.1, y.1));
                lemma_q_le_congruence(x.1, y.1, e1, e2);
            },
            _ => {},
        }
        lemma_entering_from_congruence(o1, o2, k + 1, n1, n2);
    }
}

/// Zero-handling and representation independence of entering-variable
/// selection.  An entry equals zero in value exactly when its numerator is
/// zero — so every representation of zero, however it was produced, is
/// excluded from eligibility alike — and more generally two objective
/// rows that are equal in value entry by entry select the same entering
/// column.
pub proof fn lemma_entering_respects_values(o1: Seq<(int, int)>, o2: Seq<(int, int)>)
    requires
        row_wf(o1),
        row_wf(o2),
        o1.len() == o2.len(),
        forall|i: int| 0 <= i < o1.len() ==> q_eq(#[trigger] o1[i], #[trigger] o2[i]),
    ensures
        select_entering_q(o1) == select_entering_q(o2),
{
    lemma_entering_from_congruence(o1, o2, 0, Option::None, Option::None);
    match (entering_from(o1, 0, Option::None), entering_from(o2, 0, Option::None)) {
        (Option::Some(x), Option::Some(y)) => {
            assert(q_wf(x.1));
            assert(q_wf(y.1));
            lemma_q_eq_sign(x.1, y.1);
        },
        _ => {},
    }
}

/// A pivot makes the entering column basic: the pivot row's entry in that
/// column has value one, and every other row's entry — and the objective
/// row's — is explicitly zero.
pub proof fn lemma_pivot_makes_column_basic(t: TabV, pr: int, pc: int)
    requires
        t.wf(),
        0 <= pr < t.rows.len(),
        0 <= pc < t.obj.len(),
        t.rows[pr][pc].0 != 0,
    ensures
        q_eq(pivot_v(t, pr, pc).rows[pr][pc], (1int, 1int)),
        forall|j: int|
            0 <= j < t.rows.len() && j != pr ==> pivot_v(t, pr, pc).rows[j][pc] == q_zero(),
        pivot_v(t, pr, pc).obj[pc] == q_zero(),
{
    let p = t.rows[pr][pc];
    assert(p.0 * p.1 == p.1 * p.0) by (nonlinear_arith);
    // the pivot row's new entry is the pivot element divided by itself: a
    // fraction with equal numerator and denominator, whose reduced form
    // has equal components as well
    if p.0 > 0 {
        let n = p.0 * p.1;
        assert(div_q(p, p) == norm_q(n, n));
    } else {
        let n = -(p.0 * p.1);
        assert(div_q(p, p) == norm_q(n, n));
    }
}

/// An entry's value equals zero exactly when its numerator is zero: the
/// eligibility test of the entering scan, which excludes entries with a
/// zero numerator, therefore excludes precisely the entries whose value
/// is zero.
pub proof fn lemma_zero_value_ineligible(e: (int, int))
    requires
        q_wf(e),
    ensures
        q_eq(e, q_zero()) <==> e.0 == 0,
{
}

} // verus!
