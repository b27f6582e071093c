//! Birkhoff coefficients over the secp256k1 scalar field: the linear system of a set of
//! shares given by x-coordinates and derivative orders, and the first row of its
//! pseudoinverse, which turns such shares into additive shares of the secret.

use vstd::prelude::*;
use vstd::arithmetic::div_mod::*;
use vstd::arithmetic::power::pow;
use crate::scalar::{Scalar, NonZeroScalar, group_order, lemma_scalar_range};
use crate::birkhoff_error::{BirkhoffError, BirkhoffResult};
use crate::birkhoff_matrix::{BirkhoffMatrix, scalar_grid, scalar_row, scalar_invertible};
use crate::interpolation::{falling, deriv_weight, deriv_sum};
use crate::linalg::{dot, mat_mul, identity, is_rect, mat_cong, cong, mod_cells, transpose, lemma_mul_cong, lemma_mul_assoc,
    lemma_mat_cong_refl, lemma_mat_cong_sym, lemma_mat_cong_trans, lemma_mul_identity_left, lemma_mul_rect};
use crate::recovery::column;
use crate::matrix::is_pseudoinverse;

verus! {

/// The values of a sequence of non-zero scalars.
pub open spec fn nonzero_row(v: Seq<NonZeroScalar>) -> Seq<int> {
    Seq::new(v.len(), |i: int| v[i]@)
}

/// The `order`-th derivative of `X^exp` at `x`, modulo the group order:
/// `exp (exp - 1) ... (exp - order + 1) x^(exp - order)`, and zero when `order > exp`.
pub open spec fn derivative_coefficient(x: int, exp: nat, order: nat) -> int {
    if exp < order {
        0
    } else {
        (falling(exp, order) * pow(x, (exp - order) as nat)) % group_order()
    }
}

/// The Birkhoff system of shares at `xs` with derivative orders `ranks` for polynomials of
/// `t` coefficients: row `r`, column `c` holds the `ranks[r]`-th derivative of `X^c` at
/// `xs[r]`.
pub open spec fn birkhoff_system(xs: Seq<int>, ranks: Seq<u16>, t: nat) -> Seq<Seq<int>> {
    Seq::new(
        ranks.len(),
        |r: int| Seq::new(t, |c: int| derivative_coefficient(xs[r], c as nat, ranks[r] as nat)),
    )
}

/// The coefficient of one cell of the Birkhoff system: the `derivative_order`-th
/// derivative of `X^exp` at `x`, which can be zero.
pub fn get_coefficient(x: &NonZeroScalar, exp: u16, derivative_order: u16) -> (r: Scalar)
    ensures
        r@ == derivative_coefficient(x@, exp as nat, derivative_order as nat),
{
    if exp < derivative_order {
        return Scalar::from_u64(0);
    }
    let ghost n = group_order();
    let mut coeff = Scalar::from_u64(1);
    let mut i: u16 = 0;
    while i < derivative_order
        invariant
            n == group_order(),
            exp >= derivative_order,
            i <= derivative_order,
            coeff@ == falling(exp as nat, i as nat) % n,
        decreases derivative_order - i,
    {
        let factor = Scalar::from_u64((exp - i) as u64);
        let next = coeff.times(&factor);
        proof {
            lemma_mul_mod_noop_left(falling(exp as nat, i as nat), (exp - i) as int, n);
            assert(falling(exp as nat, (i + 1) as nat) == falling(exp as nat, i as nat) * (exp - i));
        }
        coeff = next;
        i = i + 1;
    }
    let x_scalar = x.as_scalar();
    let mut x_pow = Scalar::from_u64(1);
    let mut k: u16 = 0;
    proof {
        reveal(pow);
        assert(pow(x@, 0) == 1);
    }
    while k < exp - derivative_order
        invariant
            n == group_order(),
            exp >= derivative_order,
            k <= exp - derivative_order,
            x_scalar@ == x@,
            x_pow@ == pow(x@, k as nat) % n,
        decreases exp - derivative_order - k,
    {
        let next = x_pow.times(x_scalar);
        proof {
            reveal(pow);
            lemma_mul_mod_noop_left(pow(x@, k as nat), x@, n);
            assert(pow(x@, (k + 1) as nat) == x@ * pow(x@, k as nat));
            vstd::arithmetic::mul::lemma_mul_is_commutative(x@, pow(x@, k as nat));
        }
        x_pow = next;
        k = k + 1;
    }
    proof {
        reveal(pow);
        assert(pow(x@, 0) == 1);
    }
    let r = coeff.times(&x_pow);
    proof {
        let f = falling(exp as nat, derivative_order as nat);
        let q = pow(x@, (exp - derivative_order) as nat);
        lemma_mul_mod_noop_left(f, q % n, n);
        lemma_mul_mod_noop_right(f, q, n);
    }
    r
}

/// The matrix of the Birkhoff system of the shares at `xs` with derivative orders `ranks`,
/// with `threshold` columns.
pub fn get_linear_equation_coefficient_matrix(threshold: u16, xs: &[NonZeroScalar], ranks: &[u16]) -> (r: BirkhoffMatrix)
    requires
        ranks@.len() <= xs@.len(),
    ensures
        r.cells() == birkhoff_system(nonzero_row(xs@), ranks@, threshold as nat),
        r.nrows() == ranks@.len(),
        ranks@.len() > 0 ==> r.wf() && r.ncols() == threshold,
{
    let num_row = ranks.len();
    let num_col = threshold as usize;
    let ghost m = birkhoff_system(nonzero_row(xs@), ranks@, threshold as nat);
    let mut cells: Vec<Vec<Scalar>> = Vec::new();
    let mut r: usize = 0;
    while r < num_row
        invariant
            num_row == ranks@.len(),
            num_row <= xs@.len(),
            num_col == threshold,
            m == birkhoff_system(nonzero_row(xs@), ranks@, threshold as nat),
            r <= num_row,
            cells@.len() == r,
            forall|a: int| 0 <= a < r ==> #[trigger] cells@[a]@.len() == num_col,
            forall|a: int| 0 <= a < r ==> #[trigger] scalar_row(cells@[a]@) == m[a],
        decreases num_row - r,
    {
        let mut row: Vec<Scalar> = Vec::new();
        let mut c: usize = 0;
        while c < num_col
            invariant
                num_row == ranks@.len(),
                num_row <= xs@.len(),
                num_col == threshold,
                m == birkhoff_system(nonzero_row(xs@), ranks@, threshold as nat),
                r < num_row,
                c <= num_col,
                row@.len() == c,
                forall|b: int| 0 <= b < c ==> #[trigger] row@[b]@ == m[r as int][b],
            decreases num_col - c,
        {
            row.push(get_coefficient(&xs[r], c as u16, ranks[r]));
            c = c + 1;
        }
        proof {
            assert(scalar_row(row@) =~= m[r as int]);
        }
        cells.push(row);
        r = r + 1;
    }
    let result = BirkhoffMatrix::new(cells);
    proof {
        assert(scalar_grid(cells@) =~= m);
    }
    result
}

/// `M^T M` modulo the group order, for the `rows` x `cols` matrix `m`.
pub open spec fn gram_matrix(m: Seq<Seq<int>>, rows: nat, cols: nat) -> Seq<Seq<int>> {
    mod_cells(mat_mul(transpose(m, rows, cols), m, rows, cols), group_order())
}

/// The Birkhoff coefficients of the shares at `xs` with derivative orders `ranks`, for a
/// polynomial of `threshold` coefficients: the first row of the pseudoinverse of the
/// Birkhoff system. Weighted by them, the shares of a polynomial sum to its constant term.
/// Fails with `MismatchedLengths` when `xs` and `ranks` differ in length, with the error
/// of inverting `A^T A` when the system has no left inverse that way, and with
/// `ZeroCoefficient` when a coefficient is zero.
pub fn birkhoff_coefficient(threshold: u16, xs: &[NonZeroScalar], ranks: &[u16]) -> (res: BirkhoffResult<
    Vec<NonZeroScalar>,
>)
    requires
        ranks@.len() == xs@.len() ==> ranks@.len() >= 1 && threshold >= 1,
    ensures
        ranks@.len() != xs@.len() ==> res == BirkhoffResult::<Vec<NonZeroScalar>>::Err(
            BirkhoffError::MismatchedLengths { ranks_len: ranks@.len() as usize, xs_len: xs@.len() as usize },
        ),
        ranks@.len() == xs@.len() && res is Err ==> res == BirkhoffResult::<Vec<NonZeroScalar>>::Err(
            BirkhoffError::MatrixInversionFailed,
        ) || res == BirkhoffResult::<Vec<NonZeroScalar>>::Err(BirkhoffError::ZeroCoefficient),
        res == BirkhoffResult::<Vec<NonZeroScalar>>::Err(BirkhoffError::ZeroCoefficient) ==> exists|pinv: Seq<Seq<int>>|
            #![trigger is_pseudoinverse(birkhoff_system(nonzero_row(xs@), ranks@, threshold as nat), ranks@.len(), threshold as nat, group_order(), pinv)]
            is_pseudoinverse(
                birkhoff_system(nonzero_row(xs@), ranks@, threshold as nat),
                ranks@.len(),
                threshold as nat,
                group_order(),
                pinv,
            ) && exists|j: int| 0 <= j < ranks@.len() && #[trigger] pinv[0][j] == 0,
        ranks@.len() == xs@.len() ==> (scalar_invertible(
            gram_matrix(birkhoff_system(nonzero_row(xs@), ranks@, threshold as nat), ranks@.len(), threshold as nat),
            threshold as nat,
        ) <==> (res is Ok || res == BirkhoffResult::<Vec<NonZeroScalar>>::Err(BirkhoffError::ZeroCoefficient))),
        ranks@.len() == xs@.len() && scalar_invertible(
            gram_matrix(birkhoff_system(nonzero_row(xs@), ranks@, threshold as nat), ranks@.len(), threshold as nat),
            threshold as nat,
        ) ==> exists|pinv: Seq<Seq<int>>|
            #![trigger is_pseudoinverse(birkhoff_system(nonzero_row(xs@), ranks@, threshold as nat), ranks@.len(), threshold as nat, group_order(), pinv)]
            {
                &&& is_pseudoinverse(
                    birkhoff_system(nonzero_row(xs@), ranks@, threshold as nat),
                    ranks@.len(),
                    threshold as nat,
                    group_order(),
                    pinv,
                )
                &&& forall|b: Seq<Seq<int>>|
                    is_pseudoinverse(
                        birkhoff_system(nonzero_row(xs@), ranks@, threshold as nat),
                        ranks@.len(),
                        threshold as nat,
                        group_order(),
                        b,
                    ) ==> b == pinv
                &&& (res is Ok <==> forall|j: int| 0 <= j < ranks@.len() ==> #[trigger] pinv[0][j] != 0)
            },
        res matches Ok(v) ==> {
            &&& v@.len() == xs@.len()
            &&& exists|pinv: Seq<Seq<int>>|
                #![trigger is_pseudoinverse(birkhoff_system(nonzero_row(xs@), ranks@, threshold as nat), ranks@.len(), threshold as nat, group_order(), pinv)]
                is_pseudoinverse(
                    birkhoff_system(nonzero_row(xs@), ranks@, threshold as nat),
                    ranks@.len(),
                    threshold as nat,
                    group_order(),
                    pinv,
                ) && pinv[0] == nonzero_row(v@)
            &&& forall|c: int|
                0 <= c < threshold ==> cong(
                    #[trigger] dot(
                        nonzero_row(v@),
                        birkhoff_system(nonzero_row(xs@), ranks@, threshold as nat),
                        c,
                        ranks@.len(),
                    ),
                    identity(threshold as nat)[0][c],
                    group_order(),
                )
        },
{
    if ranks.len() != xs.len() {
        return Err(BirkhoffError::MismatchedLengths { ranks_len: ranks.len(), xs_len: xs.len() });
    }
    let birkhoff_matrix = get_linear_equation_coefficient_matrix(threshold, xs, ranks);
    let invert_matrix = birkhoff_matrix.pseudo_inverse()?;
    let ghost a = birkhoff_matrix.cells();
    let ghost pinv = invert_matrix.cells();
    proof {
        invert_matrix.lemma_shape();
        assert(is_pseudoinverse(a, ranks@.len(), threshold as nat, group_order(), pinv));
    }
    let res = invert_matrix.get_row_non_zero(0);
    proof {
        let t = threshold as nat;
        let len = ranks@.len();
        if res is Ok {
            let v = res->Ok_0;
            assert(nonzero_row(v@) =~= pinv[0]);
            assert forall|c: int| 0 <= c < threshold implies cong(
                #[trigger] dot(nonzero_row(v@), a, c, len),
                identity(t)[0][c],
                group_order(),
            ) by {
                assert(mat_mul(pinv, a, len, t)[0][c] == dot(pinv[0], a, c, len));
            }
        } else {
            let j = choose|j: int| 0 <= j < len && !(#[trigger] pinv[0][j] != 0);
            assert(pinv[0][j] == 0);
        }
    }
    res
}

/// The shares of the polynomial with the coefficients `a` (degree below `t`) at `xs` with
/// derivative orders `ranks`: share `r` is the `ranks[r]`-th derivative at `xs[r]`.
pub open spec fn polynomial_shares(xs: Seq<int>, ranks: Seq<u16>, a: Seq<int>, t: nat) -> Seq<int> {
    Seq::new(ranks.len(), |r: int| deriv_sum(a, ranks[r] as nat, xs[r], t))
}

/// A row of the Birkhoff system applied to the coefficients `a` gives, modulo the group
/// order, the derivative of the row's order at the row's point.
proof fn lemma_system_row_dot(x: int, d: nat, t: nat, a: Seq<int>, k: nat)
    requires
        a.len() == t,
        k <= t,
    ensures
        dot(Seq::new(t, |c: int| derivative_coefficient(x, c as nat, d)), column(a), 0, k) % group_order()
            == deriv_sum(a, d, x, k) % group_order(),
    decreases k,
{
    if k > 0 {
        let n = group_order();
        let k1 = (k - 1) as nat;
        let row = Seq::new(t, |c: int| derivative_coefficient(x, c as nat, d));
        lemma_system_row_dot(x, d, t, a, k1);
        let c = row[k1 as int];
        let w = deriv_weight(d, x, k1);
        assert(column(a)[k1 as int][0] == a[k1 as int]);
        assert(c % n == w % n) by {
            if k1 >= d {
                lemma_mod_twice(falling(k1, d) * pow(x, (k1 - d) as nat), n);
            }
        }
        lemma_mul_mod_noop_left(c, a[k1 as int], n);
        lemma_mul_mod_noop_left(w, a[k1 as int], n);
        lemma_add_mod_noop(dot(row, column(a), 0, k1), c * a[k1 as int], n);
        lemma_add_mod_noop(deriv_sum(a, d, x, k1), w * a[k1 as int], n);
    }
}

/// Weights `lambda` whose combination of the rows of the Birkhoff system is, modulo the
/// group order, the first unit row (as the Birkhoff coefficients are) combine the shares
/// of any polynomial of degree below `t` into its constant term, the secret.
pub proof fn law_birkhoff_coefficients_recover_secret(
    xs: Seq<int>,
    ranks: Seq<u16>,
    t: nat,
    lambda: Seq<int>,
    a: Seq<int>,
)
    requires
        a.len() == t,
        t >= 1,
        lambda.len() == ranks.len(),
        forall|c: int|
            0 <= c < t ==> cong(
                #[trigger] dot(lambda, birkhoff_system(xs, ranks, t), c, ranks.len()),
                identity(t)[0][c],
                group_order(),
            ),
    ensures
        dot(lambda, column(polynomial_shares(xs, ranks, a, t)), 0, ranks.len()) % group_order() == a[0]
            % group_order(),
{
    let n = ranks.len();
    let p = group_order();
    let m = birkhoff_system(xs, ranks, t);
    let col = column(a);
    let s = column(polynomial_shares(xs, ranks, a, t));
    let lam = seq![lambda];
    let e0 = seq![identity(t)[0]];
    assert(is_rect(m, n, t));
    assert(is_rect(col, t, 1));
    assert(is_rect(s, n, 1));
    assert(is_rect(lam, 1, n));
    assert(is_rect(e0, 1, t));
    // the system applied to the coefficients gives the shares
    let mc = mat_mul(m, col, t, 1);
    lemma_mul_rect(m, col, n, t, 1);
    assert forall|r: int, j: int| 0 <= r < n && 0 <= j < 1 implies cong(#[trigger] mc[r][j], s[r][j], p) by {
        lemma_system_row_dot(xs[r], ranks[r] as nat, t, a, t);
        assert(m[r] == Seq::new(t, |c: int| derivative_coefficient(xs[r], c as nat, ranks[r] as nat)));
    }
    lemma_mat_cong_sym(mc, s, n, 1, p);
    // lambda s == lambda (m col) == (lambda m) col == e0 col == a[0]
    lemma_mat_cong_refl(lam, 1, n, p);
    lemma_mul_cong(lam, lam, s, mc, 1, n, 1, p);
    lemma_mul_assoc(lam, m, col, 1, n, t, 1);
    let lm = mat_mul(lam, m, n, t);
    lemma_mul_rect(lam, m, 1, n, t);
    assert forall|r: int, c: int| 0 <= r < 1 && 0 <= c < t implies cong(#[trigger] lm[r][c], e0[r][c], p) by {
        assert(lm[r][c] == dot(lambda, m, c, n));
    }
    lemma_mat_cong_refl(col, t, 1, p);
    lemma_mul_cong(lm, e0, col, col, 1, t, 1, p);
    lemma_mat_cong_trans(mat_mul(lam, s, n, 1), mat_mul(lm, col, t, 1), mat_mul(e0, col, t, 1), 1, 1, p);
    lemma_mul_identity_left(col, t, 1);
    assert(mat_mul(e0, col, t, 1)[0][0] == mat_mul(identity(t), col, t, 1)[0][0]);
    assert(mat_mul(lam, s, n, 1)[0][0] == dot(lambda, s, 0, n));
    assert(cong(mat_mul(lam, s, n, 1)[0][0], mat_mul(e0, col, t, 1)[0][0], p));
}

} // verus!
