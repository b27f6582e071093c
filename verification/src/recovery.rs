//! Why Birkhoff interpolation works: each share is a row of the linear system applied to
//! the polynomial's coefficients, so the pseudoinverse of the system recovers the
//! coefficients (the secret among them) from the shares, and its columns give the
//! coefficients that build the share of a new party.

use vstd::prelude::*;
use vstd::arithmetic::div_mod::*;
use vstd::arithmetic::mul::*;
use vstd::arithmetic::power::pow;
use crate::integer::{abs, floor_mod, lemma_floor_mod_residue};
use crate::linalg::{dot, mat_mul, transpose, identity, is_rect, mat_cong, cong, mod_cells,
    lemma_mod_cells_cong, lemma_mul_cong, lemma_mul_assoc, lemma_mat_cong_refl, lemma_mat_cong_sym,
    lemma_mat_cong_trans, lemma_mul_identity_left, lemma_dot_cong, lemma_mul_rect,
    lemma_transpose_rect};
use crate::matrix::is_pseudoinverse;
use crate::interpolation::{diff_coeff, coeff_row, coeff_matrix, deriv_weight, deriv_sum, column_of,
    falling};

verus! {

/// The vector `a` as a matrix of one column.
pub open spec fn column(a: Seq<int>) -> Seq<Seq<int>> {
    Seq::new(a.len(), |i: int| seq![a[i]])
}

/// The shares of the parameters for the polynomial with coefficients `a` (degree below
/// `t`), as a matrix of one column: share `k` is the derivative of order `rank_k` at `x_k`.
pub open spec fn shares(params: Seq<(int, u32)>, a: Seq<int>, t: nat) -> Seq<Seq<int>> {
    Seq::new(params.len(), |k: int| seq![deriv_sum(a, params[k].1 as nat, params[k].0, t)])
}

/// A coefficient of the linear system is congruent to the derivative's weight.
proof fn lemma_diff_coeff_weight(x: int, r: nat, i: nat, p: int)
    requires
        p != 0,
    ensures
        diff_coeff(x, r, i, p) % abs(p) == deriv_weight(r, x, i) % abs(p),
{
    if i >= r {
        if i == 0 {
            assert(pow(x, 0) == 1) by {
                vstd::arithmetic::power::lemma_pow0(x);
            }
            assert(falling(0, 0) == 1);
        } else {
            let w = pow(x, (i - r) as nat) * falling(i, r);
            lemma_floor_mod_residue(w, p);
            lemma_mul_is_commutative(pow(x, (i - r) as nat), falling(i, r));
        }
    }
}

/// A row of the linear system applied to the coefficients `a` gives, modulo `|p|`, the
/// derivative of the row's order at the row's point.
proof fn lemma_row_dot(x: int, r: nat, t: nat, p: int, a: Seq<int>, k: nat)
    requires
        p != 0,
        a.len() == t,
        k <= t,
    ensures
        dot(coeff_row(x, r, t, p), column(a), 0, k) % abs(p) == deriv_sum(a, r, x, k) % abs(p),
    decreases k,
{
    if k > 0 {
        let k1 = (k - 1) as nat;
        lemma_row_dot(x, r, t, p, a, k1);
        let pa = abs(p);
        let c = coeff_row(x, r, t, p)[k1 as int];
        assert(c == diff_coeff(x, r, k1, p));
        assert(column(a)[k1 as int][0] == a[k1 as int]);
        lemma_diff_coeff_weight(x, r, k1, p);
        lemma_mul_mod_noop_left(c, a[k1 as int], pa);
        lemma_mul_mod_noop_left(deriv_weight(r, x, k1), a[k1 as int], pa);
        lemma_add_mod_noop(dot(coeff_row(x, r, t, p), column(a), 0, k1), c * a[k1 as int], pa);
        lemma_add_mod_noop(deriv_sum(a, r, x, k1), deriv_weight(r, x, k1) * a[k1 as int], pa);
    }
}

/// Each share is, modulo the field order, the corresponding row of the Birkhoff linear
/// system applied to the polynomial's coefficients.
pub proof fn law_shares_are_system_rows(params: Seq<(int, u32)>, t: nat, p: int, a: Seq<int>)
    requires
        p != 0,
        a.len() == t,
    ensures
        mat_cong(
            mat_mul(coeff_matrix(params, t, p), column(a), t, 1),
            shares(params, a, t),
            params.len(),
            1,
            abs(p),
        ),
{
    let m = mat_mul(coeff_matrix(params, t, p), column(a), t, 1);
    let s = shares(params, a, t);
    assert forall|k: int, j: int| 0 <= k < params.len() && 0 <= j < 1 implies cong(
        #[trigger] m[k][j],
        s[k][j],
        abs(p),
    ) by {
        lemma_row_dot(params[k].0, params[k].1 as nat, t, p, a, t);
        assert(coeff_matrix(params, t, p)[k] == coeff_row(params[k].0, params[k].1 as nat, t, p));
    }
}

/// A pseudoinverse of an `n` x `t` matrix is a left inverse of it modulo `|p|`.
pub proof fn lemma_pseudoinverse_left_inverse(m: Seq<Seq<int>>, n: nat, t: nat, p: int, b: Seq<Seq<int>>)
    requires
        p != 0,
        is_rect(m, n, t),
        is_pseudoinverse(m, n, t, p, b),
    ensures
        is_rect(b, t, n),
        mat_cong(mat_mul(b, m, n, t), identity(t), t, t, abs(p)),
{
    let pa = abs(p);
    let mt = transpose(m, n, t);
    let x = choose|x: Seq<Seq<int>>|
        #![trigger mat_mul(x, transpose(m, n, t), t, n)]
        {
            &&& is_rect(x, t, t)
            &&& mat_cong(
                mat_mul(x, mat_mul(transpose(m, n, t), m, n, t), t, t),
                identity(t),
                t,
                t,
                abs(p),
            )
            &&& b == mod_cells(mat_mul(x, transpose(m, n, t), t, n), p)
        };
    lemma_transpose_rect(m, n, t);
    lemma_mul_rect(x, mt, t, t, n);
    let xm = mat_mul(x, mt, t, n);
    lemma_mod_cells_cong(xm, t, n, p);
    lemma_mat_cong_refl(m, n, t, pa);
    lemma_mul_cong(b, xm, m, m, t, n, t, pa);
    lemma_mul_assoc(x, mt, m, t, t, n, t);
    lemma_mat_cong_trans(mat_mul(b, m, n, t), mat_mul(xm, m, n, t), identity(t), t, t, pa);
}

/// With `b` a pseudoinverse of the Birkhoff linear system, row `i` of `b` combines the
/// shares into coefficient `i` of the polynomial, modulo the field order; row 0, the
/// Birkhoff coefficients, recovers the secret `a[0]`.
pub proof fn law_birkhoff_recovers_coefficients(
    params: Seq<(int, u32)>,
    t: nat,
    p: int,
    a: Seq<int>,
    b: Seq<Seq<int>>,
)
    requires
        p != 0,
        a.len() == t,
        is_pseudoinverse(coeff_matrix(params, t, p), params.len(), t, p, b),
    ensures
        forall|i: int|
            0 <= i < t ==> #[trigger] dot(b[i], shares(params, a, t), 0, params.len()) % abs(p)
                == a[i] % abs(p),
{
    let n = params.len();
    let pa = abs(p);
    let m = coeff_matrix(params, t, p);
    let col = column(a);
    let s = shares(params, a, t);
    assert(is_rect(m, n, t));
    assert(is_rect(col, t, 1));
    assert(is_rect(s, n, 1));
    lemma_pseudoinverse_left_inverse(m, n, t, p, b);
    // s == m col
    law_shares_are_system_rows(params, t, p, a);
    lemma_mul_rect(m, col, n, t, 1);
    lemma_mat_cong_sym(mat_mul(m, col, t, 1), s, n, 1, pa);
    // b s == b (m col) == (b m) col == col
    lemma_mat_cong_refl(b, t, n, pa);
    lemma_mul_cong(b, b, s, mat_mul(m, col, t, 1), t, n, 1, pa);
    lemma_mul_assoc(b, m, col, t, n, t, 1);
    lemma_mat_cong_refl(col, t, 1, pa);
    lemma_mul_rect(b, m, t, n, t);
    lemma_mul_cong(mat_mul(b, m, n, t), identity(t), col, col, t, t, 1, pa);
    lemma_mul_identity_left(col, t, 1);
    lemma_mat_cong_trans(
        mat_mul(b, s, n, 1),
        mat_mul(mat_mul(b, m, n, t), col, t, 1),
        col,
        t,
        1,
        pa,
    );
    assert forall|i: int| 0 <= i < t implies #[trigger] dot(b[i], s, 0, n) % pa == a[i] % pa by {
        assert(mat_mul(b, s, n, 1)[i][0] == dot(b[i], s, 0, n));
        assert(cong(mat_mul(b, s, n, 1)[i][0], col[i][0], pa));
    }
}

/// The derivative as a weighted sum of coefficients.
proof fn lemma_deriv_sum_dot(a: Seq<int>, d: nat, x: int, t: nat, hi: nat)
    requires
        a.len() == t,
        hi <= t,
    ensures
        deriv_sum(a, d, x, hi) == dot(Seq::new(t, |i: int| deriv_weight(d, x, i as nat)), column(a), 0, hi),
    decreases hi,
{
    if hi > 0 {
        lemma_deriv_sum_dot(a, d, x, t, (hi - 1) as nat);
        assert(column(a)[hi - 1][0] == a[hi - 1]);
    }
}

/// The derivative of a column of `b` as a weighted sum of the column's entries.
proof fn lemma_column_deriv_dot(b: Seq<Seq<int>>, k: int, d: nat, x: int, t: nat, hi: nat)
    requires
        hi <= t,
    ensures
        deriv_sum(column_of(b, k, t), d, x, hi) == dot(
            Seq::new(t, |i: int| deriv_weight(d, x, i as nat)),
            b,
            k,
            hi,
        ),
    decreases hi,
{
    if hi > 0 {
        lemma_column_deriv_dot(b, k, d, x, t, (hi - 1) as nat);
        assert(column_of(b, k, t)[hi - 1] == b[hi - 1][k]);
    }
}

/// With `b` a pseudoinverse of the Birkhoff linear system, the add-share coefficients of
/// the parameters for a new parameter `(x, d)` (the `d`-th derivatives at `x` of the
/// polynomials whose coefficients are the columns of `b`, reduced by the field order)
/// combine the shares into the new party's share: the `d`-th derivative at `x` of the
/// shared polynomial, modulo the field order.
pub proof fn law_add_share_builds_new_share(
    params: Seq<(int, u32)>,
    t: nat,
    p: int,
    a: Seq<int>,
    b: Seq<Seq<int>>,
    d: nat,
    x: int,
)
    requires
        p != 0,
        a.len() == t,
        is_pseudoinverse(coeff_matrix(params, t, p), params.len(), t, p, b),
    ensures
        dot(
            Seq::new(
                params.len(),
                |k: int| floor_mod(deriv_sum(column_of(b, k, t), d, x, t), p),
            ),
            shares(params, a, t),
            0,
            params.len(),
        ) % abs(p) == deriv_sum(a, d, x, t) % abs(p),
{
    let n = params.len();
    let pa = abs(p);
    let m = coeff_matrix(params, t, p);
    let s = shares(params, a, t);
    let col = column(a);
    let w = Seq::new(t, |i: int| deriv_weight(d, x, i as nat));
    let wm = seq![w];
    let c = Seq::new(n, |k: int| deriv_sum(column_of(b, k, t), d, x, t));
    let cf = Seq::new(n, |k: int| floor_mod(deriv_sum(column_of(b, k, t), d, x, t), p));
    lemma_pseudoinverse_left_inverse(m, n, t, p, b);
    // c == (w b)[0]
    assert forall|k: int| 0 <= k < n implies #[trigger] c[k] == mat_mul(wm, b, t, n)[0][k] by {
        lemma_column_deriv_dot(b, k, d, x, t, t);
    }
    // sum_k c_k s_k == ((w b) s)[0][0] == (w (b s))[0][0]
    assert(is_rect(wm, 1, t));
    assert(is_rect(s, n, 1));
    lemma_mul_assoc(wm, b, s, 1, t, n, 1);
    assert(c =~= mat_mul(wm, b, t, n)[0]);
    assert(dot(c, s, 0, n) == mat_mul(mat_mul(wm, b, t, n), s, n, 1)[0][0]);
    let bs = mat_mul(b, s, n, 1);
    assert(dot(c, s, 0, n) == dot(w, bs, 0, t));
    // b s == column(a), entry by entry
    law_birkhoff_recovers_coefficients(params, t, p, a, b);
    assert forall|i: int| 0 <= i < t implies cong(#[trigger] bs[i][0], col[i][0], pa) by {
        assert(bs[i][0] == dot(b[i], s, 0, n));
        assert(dot(b[i], s, 0, n) % pa == a[i] % pa);
    }
    assert forall|i: int| 0 <= i < t implies cong(#[trigger] w[i], w[i], pa) by {}
    lemma_dot_cong(w, w, bs, col, 0, t, pa);
    lemma_deriv_sum_dot(a, d, x, t, t);
    // the reduced coefficients are congruent to the exact ones
    assert forall|k: int| 0 <= k < n implies cong(#[trigger] cf[k], c[k], pa) by {
        lemma_floor_mod_residue(c[k], p);
    }
    assert forall|k: int| 0 <= k < n implies cong(#[trigger] s[k][0], s[k][0], pa) by {}
    lemma_dot_cong(cf, c, s, s, 0, n, pa);
}

} // verus!
