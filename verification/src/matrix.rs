//! Matrices of arbitrary-precision integers over a finite field, with Gaussian
//! elimination, inversion, rank and the Moore-Penrose pseudoinverse.

use vstd::prelude::*;
use vstd::arithmetic::div_mod::*;
use vstd::arithmetic::mul::*;
use crate::integer::{Integer, abs, trunc_rem, big_add, big_sub, big_div, big_rem, big_lt, big_eq, big_mul};
use crate::linalg::{gcd, norm, invertible_mod, cong, dot, mat_mul, transpose, mod_cells, is_rect, identity, swap_rows,
    row_scale, row_axpy, mat_cong, lower_exact, col_axpy, col_swap, lemma_trunc_nonneg,
    lemma_trunc_rem_shape, lemma_norm, lemma_gcd_mod, lemma_mul_identity_left, lemma_mul_row_axpy,
    lemma_mul_swap, lemma_left_inverse_axpy, lemma_left_inverse_swap, lemma_mod_cells_cong,
    lemma_mul_cong, lemma_mat_cong_refl, lemma_mat_cong_trans, lemma_mat_cong_sym,
    lemma_mod_cells_idem, lemma_mul_rect, lemma_mat_cong_one, lemma_inverse_by_factors,
    lemma_cong_row_axpy, lemma_cong_swap, lemma_mul_assoc, lemma_transpose_twice, lemma_transpose_mul,
    law_left_and_right_inverse_agree, lemma_mod_cells_of_cong};
use crate::error::{Error, matrix_error};

verus! {

/// Values of a row of integers.
pub open spec fn row_vals(v: Seq<Integer>) -> Seq<int> {
    Seq::new(v.len(), |i: int| v[i]@)
}

/// Values of a grid of integers.
pub open spec fn grid_vals(m: Seq<Vec<Integer>>) -> Seq<Seq<int>> {
    Seq::new(m.len(), |i: int| row_vals(m[i]@))
}

/// Argument that the modular inverse hands to the extended Euclidean algorithm.
pub open spec fn gcd_arg(v: int, n: int) -> int {
    if v < 0 {
        trunc_rem(v, n) + n
    } else {
        v
    }
}

/// `v` has an inverse modulo the field order `order`, as the extended Euclidean
/// algorithm decides it: `gcd(v mod |order|, |order|) == 1`.
pub open spec fn has_mod_inverse(v: int, order: int) -> bool {
    gcd(gcd_arg(v, abs(order)) as nat, abs(order) as nat) == 1
}

/// `out` is `inp` scaled by an inverse of `d` modulo `p`.
pub open spec fn scaled_by_inverse(out: Seq<int>, inp: Seq<int>, d: int, p: int) -> bool {
    exists|y: int| (d * y) % p == 1int % p && out == row_scale(inp, y)
}

/// Whether `v` has an inverse depends only on its residue.
pub proof fn lemma_has_mod_inverse_residue(v: int, w: int, p: int)
    requires
        p != 0,
        v % abs(p) == w % abs(p),
    ensures
        has_mod_inverse(v, p) == has_mod_inverse(w, p),
{
    let n = abs(p);
    lemma_gcd_arg_residue(v, n);
    lemma_gcd_arg_residue(w, n);
    lemma_gcd_mod(gcd_arg(v, n) as nat, n as nat);
    lemma_gcd_mod(gcd_arg(w, n) as nat, n as nat);
}

proof fn lemma_gcd_arg_residue(v: int, n: int)
    requires
        n > 0,
    ensures
        gcd_arg(v, n) >= 0,
        gcd_arg(v, n) % n == v % n,
{
    lemma_trunc_rem_shape(v, n);
    if v < 0 {
        lemma_mod_bound(-v, n);
        lemma_norm(v, n);
        let t = trunc_rem(v, n);
        if t == 0 {
            lemma_mod_self_0(n);
        } else {
            assert(gcd_arg(v, n) == norm(v, n));
        }
    }
}

/// `n` is a prime number.
pub open spec fn is_prime(n: int) -> bool {
    n > 1 && forall|d: int| 1 < d < n ==> #[trigger] (n % d) != 0
}

/// The gcd of two numbers, not both zero, is positive and divides both.
proof fn lemma_gcd_divides(a: nat, b: nat)
    requires
        a > 0 || b > 0,
    ensures
        gcd(a, b) > 0,
        a % gcd(a, b) == 0,
        b % gcd(a, b) == 0,
    decreases b,
{
    if b == 0 {
        lemma_mod_self_0(a as int);
        lemma_small_mod(0, a);
    } else {
        lemma_mod_bound(a as int, b as int);
        lemma_gcd_divides(b, a % b);
        let d = gcd(a, b);
        assert(d == gcd(b, a % b));
        lemma_fundamental_div_mod(a as int, b as int);
        let q = a as int / b as int;
        let (qb, rb) = (b as int / d as int, (a % b) as int / d as int);
        lemma_fundamental_div_mod(b as int, d as int);
        lemma_fundamental_div_mod((a % b) as int, d as int);
        assert(a as int == d * (q * qb + rb)) by (nonlinear_arith)
            requires
                a as int == b * q + (a % b) as int,
                b as int == d * qb,
                (a % b) as int == d * rb,
        ;
        lemma_mod_multiples_basic(q * qb + rb, d as int);
        lemma_mul_is_commutative(q * qb + rb, d as int);
    }
}

/// Modulo a prime, every entry that is not a multiple of it has an inverse.
pub proof fn lemma_prime_has_inverse(v: int, p: int)
    requires
        is_prime(abs(p)),
        v % abs(p) != 0,
    ensures
        has_mod_inverse(v, p),
{
    let n = abs(p);
    lemma_gcd_arg_residue(v, n);
    let g = gcd_arg(v, n);
    lemma_gcd_mod(g as nat, n as nat);
    let w = (g % n) as nat;
    lemma_mod_bound(g, n);
    assert(w > 0);
    lemma_gcd_divides(w, n as nat);
    let d = gcd(w, n as nat);
    assert(d <= w) by {
        lemma_fundamental_div_mod(w as int, d as int);
        let q = w as int / d as int;
        assert(w as int == d * q);
        if q <= 0 {
            assert(d * q <= 0) by (nonlinear_arith)
                requires
                    d > 0,
                    q <= 0,
            ;
        } else {
            assert(d * q >= d) by (nonlinear_arith)
                requires
                    d > 0,
                    q >= 1,
            ;
        }
    }
    if d != 1 {
        assert(1 < d < n);
        assert(n % (d as int) != 0);
    }
}

/// Whether `v` is zero or a multiple of `m`, as Rust's `%` tells it.
proof fn lemma_trunc_rem_zero(v: int, m: int)
    requires
        m != 0,
    ensures
        (trunc_rem(v, m) == 0) == (v % abs(m) == 0),
{
    let n = abs(m);
    lemma_trunc_rem_shape(v, m);
    if v < 0 {
        lemma_fundamental_div_mod(-v, n);
        lemma_mod_bound(-v, n);
        let q = (-v) / n;
        let r = (-v) % n;
        if r == 0 {
            assert(v == n * (-q)) by (nonlinear_arith)
                requires
                    -v == n * q + r,
                    r == 0,
            ;
            lemma_mod_multiples_basic(-q, n);
            lemma_mul_is_commutative(-q, n);
        } else {
            assert(v == n * (-q - 1) + (n - r)) by (nonlinear_arith)
                requires
                    -v == n * q + r,
            ;
            lemma_mod_multiples_vanish(-q - 1, n - r, n);
            lemma_small_mod((n - r) as nat, n as nat);
        }
    }
}

/// Gaussian elimination of the `n` x `n` matrix `a` modulo `|p|` is stuck at column `i`:
/// a left factor `l`, invertible modulo `|p|`, brings `a` to `e`, whose columns before `i`
/// are upper triangular with invertible diagonal and whose column `i` is a multiple of `|p|`
/// from row `i` down. Column `i` of `e` then depends on the columns before it.
pub open spec fn stuck_at(a: Seq<Seq<int>>, n: nat, p: int, i: int) -> bool {
    exists|l: Seq<Seq<int>>, g: Seq<Seq<int>>, e: Seq<Seq<int>>|
        #![trigger mat_mul(g, l, n, n), mat_cong(mat_mul(l, a, n, n), e, n, n, abs(p))]
        {
            &&& is_rect(l, n, n)
            &&& is_rect(g, n, n)
            &&& is_rect(e, n, n)
            &&& mat_cong(mat_mul(g, l, n, n), identity(n), n, n, abs(p))
            &&& mat_cong(mat_mul(l, a, n, n), e, n, n, abs(p))
            &&& forall|r: int, c: int| 0 <= c < i && c < r < n ==> #[trigger] e[r][c] % abs(p) == 0
            &&& forall|c: int| 0 <= c < i ==> invertible_mod(#[trigger] e[c][c], abs(p))
            &&& forall|r: int| i <= r < n ==> #[trigger] e[r][i] % abs(p) == 0
        }
}

/// Gaussian elimination of the `n` x `n` matrix `a` modulo `|p|` is stuck at some column
/// (see [`stuck_at`]); by [`law_stuck_elimination_has_no_inverse`], `a` then has no inverse.
pub open spec fn elimination_stuck(a: Seq<Seq<int>>, n: nat, p: int) -> bool {
    exists|i: int| 0 <= i < n && #[trigger] stuck_at(a, n, p, i)
}

/// The `n` x `n` matrix `a` has an inverse modulo `|p|`: some `x` has `x a == I`.
pub open spec fn invertible_matrix(a: Seq<Seq<int>>, n: nat, p: int) -> bool {
    exists|x: Seq<Seq<int>>|
        is_rect(x, n, n) && mat_cong(#[trigger] mat_mul(x, a, n, n), identity(n), n, n, abs(p))
}

/// The elimination of a matrix with an inverse does not get stuck.
pub proof fn lemma_invertible_not_stuck(a: Seq<Seq<int>>, n: nat, p: int)
    requires
        abs(p) > 1,
        is_rect(a, n, n),
        invertible_matrix(a, n, p),
    ensures
        !elimination_stuck(a, n, p),
{
    let x = choose|x: Seq<Seq<int>>|
        is_rect(x, n, n) && mat_cong(#[trigger] mat_mul(x, a, n, n), identity(n), n, n, abs(p));
    if elimination_stuck(a, n, p) {
        law_stuck_elimination_has_no_inverse(a, n, p, x);
    }
}

/// Bezout's identity: some integer combination of `a` and `b` is their gcd.
proof fn lemma_bezout(a: nat, b: nat) -> (xy: (int, int))
    ensures
        a * xy.0 + b * xy.1 == gcd(a, b),
    decreases b,
{
    if b == 0 {
        (1, 0)
    } else {
        let (x1, y1) = lemma_bezout(b, a % b);
        lemma_fundamental_div_mod(a as int, b as int);
        let q = a as int / b as int;
        assert(a * y1 + b * (x1 - q * y1) == b * x1 + (a % b) * y1) by (nonlinear_arith)
            requires
                a as int == b * q + (a % b) as int,
        ;
        (y1, x1 - q * y1)
    }
}

/// An entry that has an inverse as the extended Euclidean algorithm decides it has an
/// inverse modulo `|p|`.
pub proof fn lemma_has_mod_inverse_invertible(v: int, p: int)
    requires
        p != 0,
        has_mod_inverse(v, p),
    ensures
        invertible_mod(v, abs(p)),
{
    let n = abs(p);
    lemma_gcd_arg_residue(v, n);
    let g = gcd_arg(v, n);
    let (x, y) = lemma_bezout(g as nat, n as nat);
    assert(g * x == 1 + n * (-y)) by (nonlinear_arith)
        requires
            g * x + n * y == 1,
    ;
    lemma_mod_multiples_vanish(-y, 1, n);
    lemma_mul_mod_noop_left(v, x, n);
    lemma_mul_mod_noop_left(g, x, n);
    assert((v * x) % n == 1int % n);
}

/// The number of leading pivots, from `k` on, that sit on the diagonal.
spec fn diagonal_prefix(piv: Seq<int>, k: int) -> int
    decreases piv.len() - k,
{
    if 0 <= k < piv.len() && piv[k] == k {
        diagonal_prefix(piv, k + 1)
    } else {
        k
    }
}

proof fn lemma_diagonal_prefix(piv: Seq<int>, k: int)
    requires
        0 <= k <= piv.len(),
    ensures
        k <= diagonal_prefix(piv, k) <= piv.len(),
        forall|t: int| k <= t < diagonal_prefix(piv, k) ==> #[trigger] piv[t] == t,
        diagonal_prefix(piv, k) < piv.len() ==> piv[diagonal_prefix(piv, k)] != diagonal_prefix(piv, k),
    decreases piv.len() - k,
{
    if k < piv.len() && piv[k] == k {
        lemma_diagonal_prefix(piv, k + 1);
    }
}

/// Strictly increasing non-negative pivot columns are at least their index.
proof fn lemma_pivots_at_least_index(piv: Seq<int>, k: int)
    requires
        0 <= k < piv.len(),
        forall|t: int| 0 <= t < piv.len() ==> 0 <= #[trigger] piv[t],
        forall|s: int, t: int| 0 <= s < t < piv.len() ==> piv[s] < piv[t],
    ensures
        piv[k] >= k,
    decreases k,
{
    if k > 0 {
        lemma_pivots_at_least_index(piv, k - 1);
        assert(piv[k - 1] < piv[k]);
    }
}

/// A square matrix whose row echelon form has fewer pivots than rows has no inverse: its
/// elimination gets stuck at the first column without a pivot on the diagonal.
pub proof fn lemma_rank_deficient_not_invertible(a: Seq<Seq<int>>, n: nat, p: int, r: nat)
    requires
        abs(p) > 1,
        is_rect(a, n, n),
        rank_witness(a, n, n, r, p),
        r < n,
    ensures
        !invertible_matrix(a, n, p),
{
    let (l, g, e, piv) = choose|l: Seq<Seq<int>>, g: Seq<Seq<int>>, e: Seq<Seq<int>>, piv: Seq<int>|
        #![trigger mat_mul(g, l, n, n), echelon_mod(e, n, n, piv, p)]
        {
            &&& is_rect(l, n, n)
            &&& is_rect(g, n, n)
            &&& mat_cong(mat_mul(g, l, n, n), identity(n), n, n, abs(p))
            &&& mat_cong(mat_mul(l, a, n, n), e, n, n, abs(p))
            &&& piv.len() == r
            &&& echelon_mod(e, n, n, piv, p)
        };
    let m = abs(p);
    lemma_diagonal_prefix(piv, 0);
    let i = diagonal_prefix(piv, 0);
    assert forall|t: int| 0 <= t < r implies #[trigger] piv[t] >= t by {
        lemma_pivots_at_least_index(piv, t);
    }
    assert forall|rr: int, c: int| 0 <= c < i && c < rr < n implies #[trigger] e[rr][c] % m == 0 by {
        if rr < r {
            assert(piv[rr] >= rr);
        }
    }
    assert forall|c: int| 0 <= c < i implies invertible_mod(#[trigger] e[c][c], m) by {
        assert(piv[c] == c);
        assert(has_mod_inverse(e[c][piv[c]], p));
        lemma_has_mod_inverse_invertible(e[c][c], p);
    }
    assert forall|rr: int| i <= rr < n implies #[trigger] e[rr][i] % m == 0 by {
        if rr < r {
            assert(piv[i] != i && piv[i] >= i);
            if rr > i {
                assert(piv[i] < piv[rr]);
            }
        }
    }
    assert(stuck_at(a, n, p, i));
    assert(elimination_stuck(a, n, p));
    if invertible_matrix(a, n, p) {
        lemma_invertible_not_stuck(a, n, p);
    }
}

/// The first `c` entries of row `r` of the left inverse of the upper triangular `e`, by
/// forward substitution: entry `c` makes column `c` of the product the unit entry.
spec fn forward_sub(e: Seq<Seq<int>>, m: int, r: int, c: nat) -> Seq<int>
    decreases c,
{
    if c == 0 {
        Seq::empty()
    } else {
        let x = forward_sub(e, m, r, (c - 1) as nat);
        let k = c - 1;
        let unit: int = if k == r { 1 } else { 0 };
        x.push((unit - dot(x, e, k, k as nat)) * inverse_of(e[k][k], m))
    }
}

proof fn lemma_forward_sub_len(e: Seq<Seq<int>>, m: int, r: int, c: nat)
    ensures
        forward_sub(e, m, r, c).len() == c,
    decreases c,
{
    if c > 0 {
        lemma_forward_sub_len(e, m, r, (c - 1) as nat);
    }
}

proof fn lemma_forward_sub_prefix(e: Seq<Seq<int>>, m: int, r: int, c: nat, cc: nat, k: int)
    requires
        c <= cc,
        0 <= k < c,
    ensures
        forward_sub(e, m, r, cc).len() == cc,
        forward_sub(e, m, r, cc)[k] == forward_sub(e, m, r, c)[k],
    decreases cc,
{
    lemma_forward_sub_len(e, m, r, cc);
    if c < cc {
        lemma_forward_sub_prefix(e, m, r, c, (cc - 1) as nat, k);
        lemma_forward_sub_len(e, m, r, (cc - 1) as nat);
    }
}

proof fn lemma_dot_prefix_agree(x: Seq<int>, y: Seq<int>, b: Seq<Seq<int>>, j: int, k: nat)
    requires
        forall|t: int| 0 <= t < k ==> x[t] == y[t],
    ensures
        dot(x, b, j, k) == dot(y, b, j, k),
    decreases k,
{
    if k > 0 {
        lemma_dot_prefix_agree(x, y, b, j, (k - 1) as nat);
    }
}

/// An upper triangular matrix modulo `m` with invertible diagonal has a left inverse.
proof fn lemma_upper_left_inverse(e: Seq<Seq<int>>, n: nat, m: int) -> (x: Seq<Seq<int>>)
    requires
        m > 1,
        is_rect(e, n, n),
        forall|r: int, c: int| 0 <= c < r < n ==> #[trigger] e[r][c] % m == 0,
        forall|c: int| 0 <= c < n ==> invertible_mod(#[trigger] e[c][c], m),
    ensures
        is_rect(x, n, n),
        mat_cong(mat_mul(x, e, n, n), identity(n), n, n, m),
{
    let x = Seq::new(n, |r: int| forward_sub(e, m, r, n));
    assert forall|r: int| 0 <= r < n implies #[trigger] x[r].len() == n by {
        lemma_forward_sub_len(e, m, r, n);
    }
    lemma_mul_rect(x, e, n, n, n);
    assert forall|r: int, c: int| 0 <= r < n && 0 <= c < n implies cong(
        #[trigger] mat_mul(x, e, n, n)[r][c],
        identity(n)[r][c],
        m,
    ) by {
        let row = forward_sub(e, m, r, n);
        let xc = forward_sub(e, m, r, c as nat);
        // the entries after c meet zeros below the diagonal
        lemma_forward_sub_len(e, m, r, n);
        lemma_forward_sub_len(e, m, r, c as nat);
        assert forall|t: int| c < t < n implies (#[trigger] (row[t] * e[t][c])) % m == 0 by {
            lemma_mul_multiple(e[t][c], row[t], m);
            lemma_mul_is_commutative(e[t][c], row[t]);
        }
        lemma_dot_zero_terms(row, e, c, (c + 1) as nat, n, m);
        // the entries before c agree with the shorter substitution
        assert forall|t: int| 0 <= t < c implies row[t] == xc[t] by {
            lemma_forward_sub_prefix(e, m, r, c as nat, n, t);
        }
        lemma_dot_prefix_agree(row, xc, e, c, c as nat);
        let d = dot(xc, e, c, c as nat);
        let y = inverse_of(e[c][c], m);
        assert(invertible_mod(e[c][c], m));
        assert((e[c][c] * y) % m == 1int % m);
        let unit: int = if c == r { 1 } else { 0 };
        lemma_forward_sub_prefix(e, m, r, (c + 1) as nat, n, c);
        assert(row[c] == (unit - d) * y);
        assert(dot(row, e, c, (c + 1) as nat) == d + row[c] * e[c][c]);
        let ey = e[c][c] * y;
        assert(d + ((unit - d) * y) * e[c][c] == unit + (unit - d) * (ey - 1)) by (nonlinear_arith)
            requires
                ey == e[c][c] * y,
        ;
        assert((ey - 1) % m == 0) by {
            lemma_sub_mod_noop(ey, 1, m);
            lemma_small_mod(1, m as nat);
            lemma_small_mod(0, m as nat);
        }
        lemma_mul_mod_noop_right(unit - d, ey - 1, m);
        lemma_mul_basics(unit - d);
        lemma_small_mod(0, m as nat);
        assert(((unit - d) * (ey - 1)) % m == 0);
        lemma_add_mod_noop(unit, (unit - d) * (ey - 1), m);
        lemma_small_mod(unit as nat, m as nat);
        assert((unit + (unit - d) * (ey - 1)) % m == unit % m);
        assert(dot(row, e, c, (c + 1) as nat) == unit + (unit - d) * (ey - 1));
        assert(dot(row, e, c, n) % m == unit % m);
        assert(mat_mul(x, e, n, n)[r][c] == dot(row, e, c, n));
        assert(identity(n)[r][c] == unit);
    }
    x
}

/// A square matrix whose row echelon form has as many pivots as rows has an inverse.
pub proof fn lemma_full_rank_invertible(a: Seq<Seq<int>>, n: nat, p: int, r: nat)
    requires
        abs(p) > 1,
        is_rect(a, n, n),
        rank_witness(a, n, n, r, p),
        r >= n,
    ensures
        invertible_matrix(a, n, p),
{
    let (l, g, e, piv) = choose|l: Seq<Seq<int>>, g: Seq<Seq<int>>, e: Seq<Seq<int>>, piv: Seq<int>|
        #![trigger mat_mul(g, l, n, n), echelon_mod(e, n, n, piv, p)]
        {
            &&& is_rect(l, n, n)
            &&& is_rect(g, n, n)
            &&& mat_cong(mat_mul(g, l, n, n), identity(n), n, n, abs(p))
            &&& mat_cong(mat_mul(l, a, n, n), e, n, n, abs(p))
            &&& piv.len() == r
            &&& echelon_mod(e, n, n, piv, p)
        };
    let m = abs(p);
    assert forall|k: int| 0 <= k < n implies #[trigger] piv[k] == k by {
        lemma_pivots_at_least_index(piv, k);
        lemma_pivots_at_most(piv, n as int, k);
    }
    assert forall|rr: int, c: int| 0 <= c < rr < n implies #[trigger] e[rr][c] % m == 0 by {
        assert(piv[rr] == rr);
    }
    assert forall|c: int| 0 <= c < n implies invertible_mod(#[trigger] e[c][c], m) by {
        assert(piv[c] == c);
        assert(has_mod_inverse(e[c][piv[c]], p));
        lemma_has_mod_inverse_invertible(e[c][c], p);
    }
    lemma_triangular_factor_invertible(a, n, p, l, e);
}

/// A matrix that a left factor brings to an upper triangular matrix with invertible
/// diagonal, all modulo `|p|`, has an inverse.
pub proof fn lemma_triangular_factor_invertible(
    a: Seq<Seq<int>>,
    n: nat,
    p: int,
    l: Seq<Seq<int>>,
    e: Seq<Seq<int>>,
)
    requires
        abs(p) > 1,
        is_rect(a, n, n),
        is_rect(l, n, n),
        mat_cong(mat_mul(l, a, n, n), e, n, n, abs(p)),
        forall|r: int, c: int| 0 <= c < r < n ==> #[trigger] e[r][c] % abs(p) == 0,
        forall|c: int| 0 <= c < n ==> invertible_mod(#[trigger] e[c][c], abs(p)),
    ensures
        invertible_matrix(a, n, p),
{
    let m = abs(p);
    let x = lemma_upper_left_inverse(e, n, m);
    // (x l) a == x (l a) == x e == I
    lemma_mul_rect(x, l, n, n, n);
    lemma_mul_rect(l, a, n, n, n);
    lemma_mul_assoc(x, l, a, n, n, n, n);
    lemma_mat_cong_refl(x, n, n, m);
    lemma_mul_cong(x, x, mat_mul(l, a, n, n), e, n, n, n, m);
    lemma_mat_cong_trans(mat_mul(mat_mul(x, l, n, n), a, n, n), mat_mul(x, e, n, n), identity(n), n, n, m);
    assert(is_rect(mat_mul(x, l, n, n), n, n));
}

/// Strictly increasing pivot columns below `cols` leave room for the pivots after them.
proof fn lemma_pivots_at_most(piv: Seq<int>, cols: int, k: int)
    requires
        0 <= k < piv.len(),
        forall|t: int| 0 <= t < piv.len() ==> #[trigger] piv[t] < cols,
        forall|s: int, t: int| 0 <= s < t < piv.len() ==> piv[s] < piv[t],
    ensures
        piv[k] <= cols - (piv.len() - k),
    decreases piv.len() - k,
{
    if k + 1 < piv.len() {
        lemma_pivots_at_most(piv, cols, k + 1);
        assert(piv[k] < piv[k + 1]);
    }
}

/// An inverse of `x` modulo `m`, when it has one.
spec fn inverse_of(x: int, m: int) -> int {
    choose|y: int| #[trigger] (x * y) % m == 1int % m
}

/// `sum_{t < k} row[off + t] * w[t]`
spec fn row_sum(row: Seq<int>, off: int, w: Seq<int>, k: nat) -> int
    decreases k,
{
    if k == 0 {
        0
    } else {
        row_sum(row, off, w, (k - 1) as nat) + row[off + k - 1] * w[k - 1]
    }
}

/// The unknowns `v[i - d] .. v[i]` of the back substitution through the upper triangular
/// columns of `e`: `v[i] == 1`, and row `j` of `e v` is zero modulo `m` for `i - d <= j < i`.
spec fn back_sub(e: Seq<Seq<int>>, m: int, i: int, d: nat) -> Seq<int>
    decreases d,
{
    if d == 0 {
        seq![1int]
    } else {
        let w = back_sub(e, m, i, (d - 1) as nat);
        let j = i - d;
        seq![-(inverse_of(e[j][j], m) * row_sum(e[j], j + 1, w, d))] + w
    }
}

/// The vector (an `n` x 1 matrix) of the back substitution, zero below row `i`.
spec fn stuck_vector(e: Seq<Seq<int>>, m: int, i: int, n: nat) -> Seq<Seq<int>> {
    Seq::new(n, |k: int| seq![if k <= i { back_sub(e, m, i, i as nat)[k] } else { 0int }])
}

/// The `n` x 1 zero matrix.
spec fn zero_column(n: nat) -> Seq<Seq<int>> {
    Seq::new(n, |k: int| seq![0int])
}

proof fn lemma_back_sub_shift(e: Seq<Seq<int>>, m: int, i: int, d: nat, dd: nat, t: int)
    requires
        d <= dd,
        0 <= t <= d,
    ensures
        back_sub(e, m, i, dd).len() == dd + 1,
        back_sub(e, m, i, dd)[dd - d + t] == back_sub(e, m, i, d)[t],
    decreases dd,
{
    if dd > 0 {
        if d < dd {
            lemma_back_sub_shift(e, m, i, d, (dd - 1) as nat, t);
        } else {
            lemma_back_sub_shift(e, m, i, 0, (dd - 1) as nat, 0);
        }
    }
}

/// Terms that are multiples of `m` do not change a dot product modulo `m`.
proof fn lemma_dot_zero_terms(x: Seq<int>, b: Seq<Seq<int>>, col: int, lo: nat, hi: nat, m: int)
    requires
        m > 0,
        lo <= hi,
        forall|t: int| lo <= t < hi ==> (#[trigger] (x[t] * b[t][col])) % m == 0,
    ensures
        dot(x, b, col, hi) % m == dot(x, b, col, lo) % m,
    decreases hi,
{
    if hi > lo {
        let h1 = (hi - 1) as nat;
        lemma_dot_zero_terms(x, b, col, lo, h1, m);
        lemma_add_mod_noop(dot(x, b, col, h1), x[h1 as int] * b[h1 as int][col], m);
        lemma_add_mod_noop(dot(x, b, col, h1), 0, m);
        lemma_small_mod(0, m as nat);
    }
}

/// A multiple of `m` times anything is a multiple of `m`.
proof fn lemma_mul_multiple(x: int, y: int, m: int)
    requires
        m > 0,
        x % m == 0,
    ensures
        (x * y) % m == 0,
{
    lemma_mul_mod_noop_left(x, y, m);
    lemma_mul_basics(y);
    lemma_small_mod(0, m as nat);
}

/// Along row `j`, the dot product with the back-substitution vector from column `j + 1` up to
/// `j + 1 + k` is the row sum of `e[j]` against the unknowns after `j`.
proof fn lemma_dot_row_sum(e: Seq<Seq<int>>, m: int, i: int, n: nat, j: int, k: nat)
    requires
        0 <= j < i < n,
        k <= i - j,
    ensures
        dot(e[j], stuck_vector(e, m, i, n), 0, (j + 1 + k) as nat) == dot(
            e[j],
            stuck_vector(e, m, i, n),
            0,
            (j + 1) as nat,
        ) + row_sum(e[j], j + 1, back_sub(e, m, i, (i - j - 1) as nat), k),
    decreases k,
{
    if k > 0 {
        lemma_dot_row_sum(e, m, i, n, j, (k - 1) as nat);
        let d1 = (i - j - 1) as nat;
        lemma_back_sub_shift(e, m, i, d1, i as nat, k - 1);
    }
}

/// Row `r` of `e` times the back-substitution vector is a multiple of `m`.
proof fn lemma_stuck_row(e: Seq<Seq<int>>, m: int, i: int, n: nat, r: int)
    requires
        m > 1,
        is_rect(e, n, n),
        0 <= i < n,
        0 <= r < n,
        forall|r2: int, c: int| 0 <= c < i && c < r2 < n ==> #[trigger] e[r2][c] % m == 0,
        forall|c: int| 0 <= c < i ==> invertible_mod(#[trigger] e[c][c], m),
        forall|r2: int| i <= r2 < n ==> #[trigger] e[r2][i] % m == 0,
    ensures
        dot(e[r], stuck_vector(e, m, i, n), 0, n) % m == 0,
{
    let v = stuck_vector(e, m, i, n);
    assert forall|t: int| i < t < n implies (#[trigger] (e[r][t] * v[t][0])) % m == 0 by {
        assert(v[t][0] == 0);
        lemma_mul_basics(e[r][t]);
        lemma_small_mod(0, m as nat);
    }
    lemma_dot_zero_terms(e[r], v, 0, (i + 1) as nat, n, m);
    if r >= i {
        assert forall|t: int| 0 <= t < i + 1 implies (#[trigger] (e[r][t] * v[t][0])) % m == 0 by {
            lemma_mul_multiple(e[r][t], v[t][0], m);
        }
        lemma_dot_zero_terms(e[r], v, 0, 0, (i + 1) as nat, m);
        lemma_small_mod(0, m as nat);
    } else {
        let j = r;
        let d = (i - j) as nat;
        assert forall|t: int| 0 <= t < j implies (#[trigger] (e[j][t] * v[t][0])) % m == 0 by {
            lemma_mul_multiple(e[j][t], v[t][0], m);
        }
        lemma_dot_zero_terms(e[j], v, 0, 0, j as nat, m);
        lemma_small_mod(0, m as nat);
        let w = back_sub(e, m, i, (d - 1) as nat);
        let s = row_sum(e[j], j + 1, w, d);
        let y = inverse_of(e[j][j], m);
        assert(invertible_mod(e[j][j], m));
        assert((e[j][j] * y) % m == 1int % m);
        lemma_back_sub_shift(e, m, i, d, i as nat, 0);
        let vj = -(y * s);
        assert(v[j][0] == vj);
        lemma_dot_row_sum(e, m, i, n, j, d);
        let d0 = dot(e[j], v, 0, j as nat);
        assert(dot(e[j], v, 0, (j + 1) as nat) == d0 + e[j][j] * vj);
        assert(dot(e[j], v, 0, (i + 1) as nat) == d0 + e[j][j] * vj + s);
        let ey = e[j][j] * y;
        assert(e[j][j] * vj + s == s * (1 - ey)) by (nonlinear_arith)
            requires
                vj == -(y * s),
                ey == e[j][j] * y,
        ;
        assert((1 - ey) % m == 0) by {
            lemma_sub_mod_noop(1, ey, m);
            lemma_small_mod(1, m as nat);
            lemma_small_mod(0, m as nat);
        }
        lemma_mul_mod_noop_right(s, 1 - ey, m);
        lemma_mul_basics(s);
        lemma_add_mod_noop(d0, s * (1 - ey), m);
    }
}

/// Gaussian elimination gets stuck only on a matrix without an inverse: when it is stuck at
/// column `i`, back substitution through the first `i` columns gives a vector `v` with
/// `v[i] == 1` and `a v == 0` modulo `|p|`, so no `x` has `x a == I`.
pub proof fn law_stuck_elimination_has_no_inverse(a: Seq<Seq<int>>, n: nat, p: int, x: Seq<Seq<int>>)
    requires
        abs(p) > 1,
        is_rect(a, n, n),
        is_rect(x, n, n),
        elimination_stuck(a, n, p),
    ensures
        !mat_cong(mat_mul(x, a, n, n), identity(n), n, n, abs(p)),
{
    let i = choose|i: int| 0 <= i < n && #[trigger] stuck_at(a, n, p, i);
    let (l, g, e) = choose|l: Seq<Seq<int>>, g: Seq<Seq<int>>, e: Seq<Seq<int>>|
        #![trigger mat_mul(g, l, n, n), mat_cong(mat_mul(l, a, n, n), e, n, n, abs(p))]
        {
            &&& is_rect(l, n, n)
            &&& is_rect(g, n, n)
            &&& is_rect(e, n, n)
            &&& mat_cong(mat_mul(g, l, n, n), identity(n), n, n, abs(p))
            &&& mat_cong(mat_mul(l, a, n, n), e, n, n, abs(p))
            &&& forall|r: int, c: int| 0 <= c < i && c < r < n ==> #[trigger] e[r][c] % abs(p) == 0
            &&& forall|c: int| 0 <= c < i ==> invertible_mod(#[trigger] e[c][c], abs(p))
            &&& forall|r: int| i <= r < n ==> #[trigger] e[r][i] % abs(p) == 0
        };
    lemma_stuck_certificate(a, n, p, x, l, g, e, i);
}

/// The back-substitution argument of [`law_stuck_elimination_has_no_inverse`] for one
/// certificate.
proof fn lemma_stuck_certificate(
    a: Seq<Seq<int>>,
    n: nat,
    p: int,
    x: Seq<Seq<int>>,
    l: Seq<Seq<int>>,
    g: Seq<Seq<int>>,
    e: Seq<Seq<int>>,
    i: int,
)
    requires
        abs(p) > 1,
        is_rect(a, n, n),
        is_rect(x, n, n),
        is_rect(l, n, n),
        is_rect(g, n, n),
        is_rect(e, n, n),
        mat_cong(mat_mul(g, l, n, n), identity(n), n, n, abs(p)),
        mat_cong(mat_mul(l, a, n, n), e, n, n, abs(p)),
        0 <= i < n,
        forall|r: int, c: int| 0 <= c < i && c < r < n ==> #[trigger] e[r][c] % abs(p) == 0,
        forall|c: int| 0 <= c < i ==> invertible_mod(#[trigger] e[c][c], abs(p)),
        forall|r: int| i <= r < n ==> #[trigger] e[r][i] % abs(p) == 0,
    ensures
        !mat_cong(mat_mul(x, a, n, n), identity(n), n, n, abs(p)),
{
    let m = abs(p);
    let v = stuck_vector(e, m, i, n);
    let z = zero_column(n);
    assert(is_rect(v, n, 1));
    assert(is_rect(z, n, 1));
    // e v == 0
    lemma_mul_rect(e, v, n, n, 1);
    assert forall|r: int, c: int| 0 <= r < n && 0 <= c < 1 implies cong(
        #[trigger] mat_mul(e, v, n, 1)[r][c],
        z[r][c],
        m,
    ) by {
        lemma_stuck_row(e, m, i, n, r);
        lemma_small_mod(0, m as nat);
    }
    assert(mat_cong(mat_mul(e, v, n, 1), z, n, 1, m));
    lemma_mat_cong_refl(v, n, 1, m);
    if mat_cong(mat_mul(x, a, n, n), identity(n), n, n, m) {
        let w = mat_mul(a, v, n, 1);
        lemma_mul_rect(a, v, n, n, 1);
        lemma_mul_rect(l, a, n, n, n);
        // l (a v) == (l a) v == e v == 0
        lemma_mul_cong(mat_mul(l, a, n, n), e, v, v, n, n, 1, m);
        lemma_mul_assoc(l, a, v, n, n, n, 1);
        lemma_mat_cong_trans(mat_mul(l, w, n, 1), mat_mul(e, v, n, 1), z, n, 1, m);
        // a v == (g l) (a v) == g (l (a v)) == g 0 == 0
        let lw = mat_mul(l, w, n, 1);
        lemma_mul_rect(l, w, n, n, 1);
        lemma_mul_rect(g, l, n, n, n);
        lemma_mat_cong_refl(g, n, n, m);
        lemma_mul_cong(g, g, lw, z, n, n, 1, m);
        lemma_mul_zero(g, n, n);
        lemma_mul_rect(g, z, n, n, 1);
        lemma_mul_assoc(g, l, w, n, n, n, 1);
        lemma_mat_cong_refl(w, n, 1, m);
        lemma_mul_cong(mat_mul(g, l, n, n), identity(n), w, w, n, n, 1, m);
        lemma_mul_identity_left(w, n, 1);
        lemma_mat_cong_sym(mat_mul(mat_mul(g, l, n, n), w, n, 1), w, n, 1, m);
        lemma_mat_cong_trans(w, mat_mul(g, lw, n, 1), mat_mul(g, z, n, 1), n, 1, m);
        lemma_mat_cong_trans(w, mat_mul(g, z, n, 1), z, n, 1, m);
        // v == (x a) v == x (a v) == x 0 == 0
        lemma_mul_rect(x, a, n, n, n);
        lemma_mul_cong(mat_mul(x, a, n, n), identity(n), v, v, n, n, 1, m);
        lemma_mul_identity_left(v, n, 1);
        lemma_mul_assoc(x, a, v, n, n, n, 1);
        lemma_mat_cong_refl(x, n, n, m);
        lemma_mul_cong(x, x, w, z, n, n, 1, m);
        lemma_mul_zero(x, n, n);
        lemma_mul_rect(x, w, n, n, 1);
        lemma_mul_rect(x, z, n, n, 1);
        lemma_mat_cong_sym(mat_mul(mat_mul(x, a, n, n), v, n, 1), v, n, 1, m);
        lemma_mat_cong_trans(v, mat_mul(x, w, n, 1), mat_mul(x, z, n, 1), n, 1, m);
        lemma_mat_cong_trans(v, mat_mul(x, z, n, 1), z, n, 1, m);
        // but v[i] == 1
        lemma_back_sub_shift(e, m, i, 0, i as nat, 0);
        assert(v[i][0] == 1);
        assert(cong(v[i][0], z[i][0], m));
        lemma_small_mod(1, m as nat);
        lemma_small_mod(0, m as nat);
    }
}

/// The product of any `r`-row matrix with the zero column is congruent to the zero column.
proof fn lemma_mul_zero(g: Seq<Seq<int>>, r: nat, n: nat)
    requires
        is_rect(g, r, n),
    ensures
        forall|m: int| m > 0 ==> mat_cong(#[trigger] mat_mul(g, zero_column(n), n, 1), zero_column(r), r, 1, m),
{
    assert forall|q: int| 0 <= q < r implies #[trigger] dot(g[q], zero_column(n), 0, n) == 0 by {
        lemma_dot_zero(g[q], n, n);
    }
    assert forall|m: int| m > 0 implies mat_cong(#[trigger] mat_mul(g, zero_column(n), n, 1), zero_column(r), r, 1, m) by {
        lemma_small_mod(0, m as nat);
        lemma_mul_rect(g, zero_column(n), r, n, 1);
        assert forall|q: int, c: int| 0 <= q < r && 0 <= c < 1 implies cong(
            #[trigger] mat_mul(g, zero_column(n), n, 1)[q][c],
            zero_column(r)[q][c],
            m,
        ) by {
            assert(c == 0);
            assert(mat_mul(g, zero_column(n), n, 1)[q][0] == dot(g[q], zero_column(n), 0, n));
        }
    }
}

proof fn lemma_dot_zero(x: Seq<int>, n: nat, k: nat)
    requires
        k <= n,
    ensures
        dot(x, zero_column(n), 0, k) == 0,
    decreases k,
{
    if k > 0 {
        lemma_dot_zero(x, n, (k - 1) as nat);
        assert(zero_column(n)[k - 1][0] == 0);
        lemma_mul_basics(x[k - 1]);
    }
}

/// An entry with an inverse modulo `|p| > 1` is not a multiple of `|p|`.
proof fn lemma_invertible_not_multiple(v: int, p: int)
    requires
        abs(p) > 1,
        has_mod_inverse(v, p),
    ensures
        v % abs(p) != 0,
{
    if v % abs(p) == 0 {
        lemma_small_mod(0, abs(p) as nat);
        lemma_has_mod_inverse_residue(v, 0, p);
        lemma_zero_not_invertible(p);
    }
}

/// Every integer is a multiple of 1.
proof fn lemma_mod_one(x: int)
    ensures
        x % 1 == 0,
{
    lemma_mod_multiples_basic(x, 1);
    lemma_mul_basics(x);
}

/// A zero entry has no inverse modulo a field order other than 1 and -1.
pub proof fn lemma_zero_not_invertible(p: int)
    requires
        abs(p) > 1,
    ensures
        !has_mod_inverse(0, p),
{
    assert(gcd_arg(0, abs(p)) == 0);
    assert(gcd(0, abs(p) as nat) == gcd(abs(p) as nat, 0));
}

/// `u` and `l` are the result of Gaussian elimination of the square matrix `a`:
/// `l * a` is congruent to `u`, `u` is upper triangular with invertible pivots, `l` has
/// a left inverse, and all entries are normalized.
pub open spec fn gauss_result(a: Seq<Seq<int>>, n: nat, p: int, u: Matrix, l: Matrix) -> bool {
    &&& u.wf()
    &&& l.wf()
    &&& u.order() == p
    &&& l.order() == p
    &&& u.nrows() == n
    &&& u.ncols() == n
    &&& l.nrows() == n
    &&& l.ncols() == n
    &&& mat_cong(mat_mul(l.cells(), a, n, n), u.cells(), n, n, abs(p))
    &&& forall|i: int, j: int| 0 <= j < i < n ==> #[trigger] u.cells()[i][j] == 0
    &&& forall|i: int| 0 <= i < n ==> has_mod_inverse(#[trigger] u.cells()[i][i], p)
    &&& exists|g: Seq<Seq<int>>|
        is_rect(g, n, n) && mat_cong(#[trigger] mat_mul(g, l.cells(), n, n), identity(n), n, n, abs(p))
    &&& u.cells() == mod_cells(u.cells(), p)
    &&& l.cells() == mod_cells(l.cells(), p)
}

/// `u` is diagonal, with the normalized diagonal of `a`.
pub open spec fn diagonal_result(a: Seq<Seq<int>>, n: nat, p: int, u: Matrix) -> bool {
    &&& forall|i: int, j: int|
        0 <= i < n && 0 <= j < n && i != j ==> #[trigger] u.cells()[i][j] == 0
    &&& forall|i: int| 0 <= i < n ==> #[trigger] u.cells()[i][i] == norm(a[i][i], p)
}

/// `a` has exact zeros below its diagonal and non-zero, invertible diagonal entries.
pub open spec fn upper_with_pivots(a: Seq<Seq<int>>, n: nat, p: int) -> bool {
    &&& forall|i: int, j: int| 0 <= j < i < n ==> #[trigger] a[i][j] == 0
    &&& forall|i: int| 0 <= i < n ==> #[trigger] a[i][i] != 0 && has_mod_inverse(a[i][i], p)
}

/// `a` has exact zeros above its diagonal and non-zero, invertible diagonal entries.
pub open spec fn lower_with_pivots(a: Seq<Seq<int>>, n: nat, p: int) -> bool {
    &&& lower_exact(a, n)
    &&& forall|i: int| 0 <= i < n ==> #[trigger] a[i][i] != 0 && has_mod_inverse(a[i][i], p)
}

/// `e` is in row echelon form modulo `|p|` with the pivot columns `piv`: pivot `t` sits in
/// row `t`, is invertible and has only multiples of `|p|` to its left; pivot columns
/// increase, and the rows below the last pivot are multiples of `|p|`.
pub open spec fn echelon_mod(e: Seq<Seq<int>>, rows: nat, cols: nat, piv: Seq<int>, p: int) -> bool {
    &&& piv.len() <= rows
    &&& forall|t: int| 0 <= t < piv.len() ==> 0 <= #[trigger] piv[t] < cols
    &&& forall|s: int, t: int| 0 <= s < t < piv.len() ==> piv[s] < piv[t]
    &&& forall|t: int| 0 <= t < piv.len() ==> has_mod_inverse(e[t][#[trigger] piv[t]], p)
    &&& forall|t: int, j: int|
        0 <= t < piv.len() && 0 <= j < piv[t] ==> #[trigger] e[t][j] % abs(p) == 0
    &&& forall|t: int, j: int|
        piv.len() <= t < rows && 0 <= j < cols ==> #[trigger] e[t][j] % abs(p) == 0
}

/// `a` (`rows` x `cols`) is brought into row echelon form with `r` pivots by a left
/// factor invertible modulo `|p|`; over a prime field, `r` is the rank of `a`.
pub open spec fn rank_witness(a: Seq<Seq<int>>, rows: nat, cols: nat, r: nat, p: int) -> bool {
    exists|l: Seq<Seq<int>>, g: Seq<Seq<int>>, e: Seq<Seq<int>>, piv: Seq<int>|
        #![trigger mat_mul(g, l, rows, rows), echelon_mod(e, rows, cols, piv, p)]
        {
            &&& is_rect(l, rows, rows)
            &&& is_rect(g, rows, rows)
            &&& mat_cong(mat_mul(g, l, rows, rows), identity(rows), rows, rows, abs(p))
            &&& mat_cong(mat_mul(l, a, rows, cols), e, rows, cols, abs(p))
            &&& piv.len() == r
            &&& echelon_mod(e, rows, cols, piv, p)
        }
}

/// The matrix whose rank the elimination computes: the matrix itself, or its transpose
/// when it has fewer rows than columns.
pub open spec fn rank_input(c: Seq<Seq<int>>, rows: nat, cols: nat) -> Seq<Seq<int>> {
    if rows < cols {
        transpose(c, rows, cols)
    } else {
        c
    }
}

/// `b` is `(a^T a)^-1 a^T` reduced by `p`, for some inverse of `a^T a` modulo `|p|`
/// (`a` has `rows` rows of `cols` entries).
pub open spec fn is_pseudoinverse(a: Seq<Seq<int>>, rows: nat, cols: nat, p: int, b: Seq<Seq<int>>) -> bool {
    exists|x: Seq<Seq<int>>|
        #![trigger mat_mul(x, transpose(a, rows, cols), cols, rows)]
        {
            &&& is_rect(x, cols, cols)
            &&& mat_cong(
                mat_mul(x, mat_mul(transpose(a, rows, cols), a, rows, cols), cols, cols),
                identity(cols),
                cols,
                cols,
                abs(p),
            )
            &&& b == mod_cells(mat_mul(x, transpose(a, rows, cols), cols, rows), p)
        }
}

/// A matrix over a finite field with modular arithmetic operations.
pub struct Matrix {
    field_order: Integer,
    matrix: Vec<Vec<Integer>>,
    rows: usize,
    cols: usize,
}

impl Matrix {
    /// The field order.
    pub closed spec fn order(&self) -> int {
        self.field_order@
    }

    /// The entries.
    pub closed spec fn cells(&self) -> Seq<Seq<int>> {
        grid_vals(self.matrix@)
    }

    /// The number of rows.
    pub closed spec fn nrows(&self) -> nat {
        self.rows as nat
    }

    /// The number of columns.
    pub closed spec fn ncols(&self) -> nat {
        self.cols as nat
    }

    /// At least one row, all rows of the same length.
    pub closed spec fn wf(&self) -> bool {
        &&& self.rows == self.matrix@.len()
        &&& self.rows >= 1
        &&& forall|i: int| 0 <= i < self.rows ==> #[trigger] self.matrix@[i]@.len() == self.cols
    }

    /// The entries of a well-formed matrix form an `nrows` x `ncols` rectangle.
    pub proof fn lemma_shape(&self)
        requires
            self.wf(),
        ensures
            is_rect(self.cells(), self.nrows(), self.ncols()),
            self.nrows() >= 1,
    {
    }

    /// Creates a new matrix with the given field order and data.
    /// Returns an error if the data is empty or has inconsistent row lengths.
    pub fn new(field_order: Integer, data: Vec<Vec<Integer>>) -> (res: Result<Matrix, Error>)
        ensures
            data@.len() == 0 ==> res is Err && matrix_error(res->Err_0, "Empty matrix"@),
            data@.len() > 0 && (exists|i: int|
                0 <= i < data@.len() && #[trigger] data@[i]@.len() != data@[0]@.len()) ==> res is Err
                && matrix_error(res->Err_0, "Inconsistent row lengths"@),
            data@.len() > 0 && (forall|i: int|
                0 <= i < data@.len() ==> #[trigger] data@[i]@.len() == data@[0]@.len()) ==> res is Ok,
            res matches Ok(m) ==> {
                &&& m.wf()
                &&& m.order() == field_order@
                &&& m.cells() == grid_vals(data@)
                &&& m.nrows() == data@.len()
                &&& m.ncols() == data@[0]@.len()
            },
    {
        if data.len() == 0 {
            proof {
                reveal_strlit("Empty matrix");
            }
            return Err(Error::MatrixError("Empty matrix".to_owned()));
        }
        let rows = data.len();
        let cols = data[0].len();
        let mut i: usize = 0;
        while i < rows
            invariant
                rows == data@.len(),
                cols == data@[0]@.len(),
                0 <= i <= rows,
                forall|k: int| 0 <= k < i ==> #[trigger] data@[k]@.len() == cols,
            decreases rows - i,
        {
            if data[i].len() != cols {
                proof {
                    reveal_strlit("Inconsistent row lengths");
                }
                return Err(Error::MatrixError("Inconsistent row lengths".to_owned()));
            }
            i = i + 1;
        }
        Ok(Matrix { field_order, matrix: data, rows, cols })
    }

    /// Gets the element at the specified row and column, reduced by the field order
    /// into a non-negative representative when the order is positive.
    pub fn get(&self, row: u64, col: u64) -> (r: Integer)
        requires
            self.wf(),
            row < self.nrows(),
            col < self.ncols(),
            self.order() != 0,
        ensures
            r@ == norm(self.cells()[row as int][col as int], self.order()),
            self.order() > 0 ==> 0 <= r@ < self.order(),
    {
        proof {
            lemma_norm(self.cells()[row as int][col as int], self.order());
        }
        let value = &self.matrix[row as usize][col as usize];
        let mut result = big_rem(value, &self.field_order);
        let zero = Integer::zero();
        if big_lt(&result, &zero) {
            result = big_add(&result, &self.field_order);
        }
        result
    }

    /// Returns a copy of the specified row, or an error if the index is out of bounds.
    pub fn get_row(&self, row: usize) -> (res: Result<Vec<Integer>, Error>)
        requires
            self.wf(),
        ensures
            row >= self.nrows() ==> res is Err && matrix_error(
                res->Err_0,
                "Row index out of bounds"@,
            ),
            row < self.nrows() ==> res is Ok && row_vals(res->Ok_0@) == self.cells()[row as int],
    {
        if row >= self.rows {
            proof {
                reveal_strlit("Row index out of bounds");
            }
            return Err(Error::MatrixError("Row index out of bounds".to_owned()));
        }
        Ok(clone_row(&self.matrix[row]))
    }

    /// Returns a reference to the underlying matrix data.
    pub fn get_matrix(&self) -> (r: &Vec<Vec<Integer>>)
        ensures
            grid_vals(r@) == self.cells(),
    {
        &self.matrix
    }

    /// Computes the transpose of the matrix; it fails as `new` does when the matrix has
    /// no columns.
    pub fn transpose(&self) -> (res: Result<Matrix, Error>)
        requires
            self.wf(),
        ensures
            self.ncols() == 0 ==> res is Err && matrix_error(res->Err_0, "Empty matrix"@),
            self.ncols() > 0 ==> res is Ok,
            res matches Ok(m) ==> {
                &&& m.wf()
                &&& m.order() == self.order()
                &&& m.nrows() == self.ncols()
                &&& m.ncols() == self.nrows()
                &&& m.cells() == transpose(self.cells(), self.nrows(), self.ncols())
            },
    {
        let mut t: Vec<Vec<Integer>> = Vec::new();
        let mut i: usize = 0;
        while i < self.cols
            invariant
                self.wf(),
                0 <= i <= self.cols,
                t@.len() == i,
                forall|a: int| 0 <= a < i ==> #[trigger] t@[a]@.len() == self.rows,
                forall|a: int, b: int|
                    0 <= a < i && 0 <= b < self.rows ==> #[trigger] t@[a]@[b]@
                        == self.matrix@[b]@[a]@,
            decreases self.cols - i,
        {
            let mut row: Vec<Integer> = Vec::new();
            let mut j: usize = 0;
            while j < self.rows
                invariant
                    self.wf(),
                    0 <= i < self.cols,
                    0 <= j <= self.rows,
                    row@.len() == j,
                    forall|b: int| 0 <= b < j ==> #[trigger] row@[b]@ == self.matrix@[b]@[i as int]@,
                decreases self.rows - j,
            {
                row.push(self.matrix[j][i].clone());
                j = j + 1;
            }
            t.push(row);
            i = i + 1;
        }
        proof {
            assert(grid_vals(t@) =~= transpose(self.cells(), self.nrows(), self.ncols())) by {
                assert forall|a: int| 0 <= a < self.cols implies #[trigger] grid_vals(t@)[a]
                    =~= transpose(self.cells(), self.nrows(), self.ncols())[a] by {}
            }
            if self.cols > 0 {
                assert forall|a: int| 0 <= a < t@.len() implies #[trigger] t@[a]@.len()
                    == t@[0]@.len() by {}
            }
        }
        Matrix::new(self.field_order.clone(), t)
    }

    /// Multiplies this matrix with another matrix, or fails when the number of columns of
    /// `self` differs from the number of rows of `other`. The entries are not reduced.
    pub fn multiply(&self, other: &Matrix) -> (res: Result<Matrix, Error>)
        requires
            self.wf(),
            other.wf(),
        ensures
            self.ncols() != other.nrows() ==> res is Err && matrix_error(
                res->Err_0,
                "Inconsistent dimensions for multiplication"@,
            ),
            self.ncols() == other.nrows() ==> res is Ok,
            res matches Ok(m) ==> {
                &&& m.wf()
                &&& m.order() == self.order()
                &&& m.nrows() == self.nrows()
                &&& m.ncols() == other.ncols()
                &&& m.cells() == mat_mul(self.cells(), other.cells(), self.ncols(), other.ncols())
            },
    {
        if self.cols != other.rows {
            proof {
                reveal_strlit("Inconsistent dimensions for multiplication");
            }
            return Err(
                Error::MatrixError("Inconsistent dimensions for multiplication".to_owned()),
            );
        }
        let ghost a = self.cells();
        let ghost b = other.cells();
        let mut result: Vec<Vec<Integer>> = Vec::new();
        let mut i: usize = 0;
        while i < self.rows
            invariant
                self.wf(),
                other.wf(),
                self.cols == other.rows,
                a == self.cells(),
                b == other.cells(),
                0 <= i <= self.rows,
                result@.len() == i,
                forall|x: int| 0 <= x < i ==> #[trigger] result@[x]@.len() == other.cols,
                forall|x: int, y: int|
                    0 <= x < i && 0 <= y < other.cols ==> #[trigger] result@[x]@[y]@ == dot(
                        a[x],
                        b,
                        y,
                        self.cols as nat,
                    ),
            decreases self.rows - i,
        {
            let mut row: Vec<Integer> = Vec::new();
            let mut j: usize = 0;
            while j < other.cols
                invariant
                    self.wf(),
                    other.wf(),
                    self.cols == other.rows,
                    a == self.cells(),
                    b == other.cells(),
                    0 <= i < self.rows,
                    0 <= j <= other.cols,
                    row@.len() == j,
                    forall|y: int| 0 <= y < j ==> #[trigger] row@[y]@ == dot(
                        a[i as int],
                        b,
                        y,
                        self.cols as nat,
                    ),
                decreases other.cols - j,
            {
                let mut val = Integer::zero();
                let mut k: usize = 0;
                while k < self.cols
                    invariant
                        self.wf(),
                        other.wf(),
                        self.cols == other.rows,
                        a == self.cells(),
                        b == other.cells(),
                        0 <= i < self.rows,
                        0 <= j < other.cols,
                        0 <= k <= self.cols,
                        val@ == dot(a[i as int], b, j as int, k as nat),
                    decreases self.cols - k,
                {
                    let temp = big_mul(&self.matrix[i][k], &other.matrix[k][j]);
                    val = big_add(&val, &temp);
                    k = k + 1;
                }
                row.push(val);
                j = j + 1;
            }
            result.push(row);
            i = i + 1;
        }
        proof {
            assert(grid_vals(result@) =~= mat_mul(a, b, self.cols as nat, other.cols as nat)) by {
                assert forall|x: int| 0 <= x < self.rows implies #[trigger] grid_vals(result@)[x]
                    =~= mat_mul(a, b, self.cols as nat, other.cols as nat)[x] by {}
            }
            assert forall|x: int| 0 <= x < result@.len() implies #[trigger] result@[x]@.len()
                == result@[0]@.len() by {}
        }
        Matrix::new(self.field_order.clone(), result)
    }

    /// Applies the field modulus to all matrix elements: the truncated remainder, moved
    /// up by the field order when negative.
    pub fn modulus(&self) -> (r: Matrix)
        requires
            self.wf(),
            self.order() != 0,
        ensures
            r.wf(),
            r.order() == self.order(),
            r.nrows() == self.nrows(),
            r.ncols() == self.ncols(),
            r.cells() == mod_cells(self.cells(), self.order()),
    {
        let mut result: Vec<Vec<Integer>> = Vec::new();
        let mut i: usize = 0;
        while i < self.rows
            invariant
                self.wf(),
                self.order() != 0,
                0 <= i <= self.rows,
                result@.len() == i,
                forall|x: int| 0 <= x < i ==> #[trigger] result@[x]@.len() == self.cols,
                forall|x: int, y: int|
                    0 <= x < i && 0 <= y < self.cols ==> #[trigger] result@[x]@[y]@ == norm(
                        self.cells()[x][y],
                        self.order(),
                    ),
            decreases self.rows - i,
        {
            let mut row: Vec<Integer> = Vec::new();
            let mut j: usize = 0;
            while j < self.cols
                invariant
                    self.wf(),
                    self.order() != 0,
                    0 <= i < self.rows,
                    0 <= j <= self.cols,
                    row@.len() == j,
                    forall|y: int| 0 <= y < j ==> #[trigger] row@[y]@ == norm(
                        self.cells()[i as int][y],
                        self.order(),
                    ),
                decreases self.cols - j,
            {
                row.push(self.get(i as u64, j as u64));
                j = j + 1;
            }
            result.push(row);
            i = i + 1;
        }
        let r = Matrix {
            field_order: self.field_order.clone(),
            matrix: result,
            rows: self.rows,
            cols: self.cols,
        };
        proof {
            assert(r.cells() =~= mod_cells(self.cells(), self.order())) by {
                assert forall|x: int| 0 <= x < self.rows implies #[trigger] r.cells()[x]
                    =~= mod_cells(self.cells(), self.order())[x] by {}
            }
        }
        r
    }

    /// A copy of the matrix.
    pub fn duplicate(&self) -> (r: Matrix)
        requires
            self.wf(),
        ensures
            r.wf(),
            r.order() == self.order(),
            r.nrows() == self.nrows(),
            r.ncols() == self.ncols(),
            r.cells() == self.cells(),
    {
        let mut result: Vec<Vec<Integer>> = Vec::new();
        let mut i: usize = 0;
        while i < self.rows
            invariant
                self.wf(),
                0 <= i <= self.rows,
                result@.len() == i,
                forall|x: int| 0 <= x < i ==> #[trigger] result@[x]@.len() == self.cols,
                forall|x: int| 0 <= x < i ==> #[trigger] row_vals(result@[x]@) == self.cells()[x],
            decreases self.rows - i,
        {
            result.push(clone_row(&self.matrix[i]));
            i = i + 1;
        }
        let r = Matrix {
            field_order: self.field_order.clone(),
            matrix: result,
            rows: self.rows,
            cols: self.cols,
        };
        proof {
            assert(r.cells() =~= self.cells());
        }
        r
    }
}

impl Matrix {
    /// Calculates the rank of the matrix over the field by Gaussian elimination, on the
    /// transpose when the matrix has fewer rows than columns. The field order is that of
    /// the matrix; the argument is not used. Fails when a pivot has no inverse.
    pub fn get_matrix_rank(&self, _field_order: &Integer) -> (res: Result<u64, Error>)
        requires
            self.wf(),
            self.order() != 0,
        ensures
            is_prime(abs(self.order())) ==> res is Ok,
            abs(self.order()) > 1 && self.nrows() == self.ncols() ==> (res matches Ok(r) ==> (r
                >= self.nrows() <==> invertible_matrix(self.cells(), self.nrows(), self.order()))),
            res is Err ==> matrix_error(res->Err_0, "Not invertible element"@),
            res matches Ok(r) ==> rank_witness(
                rank_input(self.cells(), self.nrows(), self.ncols()),
                if self.nrows() < self.ncols() { self.ncols() } else { self.nrows() },
                if self.nrows() < self.ncols() { self.nrows() } else { self.ncols() },
                r as nat,
                self.order(),
            ),
    {
        let mut upper = self.duplicate();
        if upper.rows < upper.cols {
            upper = upper.transpose()?;
        }
        let ghost b = upper.cells();
        let ghost p = self.order();
        let ghost pa = abs(p);
        let nr = upper.rows;
        let nc = upper.cols;
        let ghost rr = nr as nat;
        let ghost cc = nc as nat;
        let ghost mut l: Seq<Seq<int>> = identity(rr);
        let ghost mut g: Seq<Seq<int>> = identity(rr);
        let ghost mut piv: Seq<int> = Seq::empty();
        proof {
            upper.lemma_shape();
            lemma_mul_identity_left(b, rr, cc);
            lemma_mul_identity_left(identity(rr), rr, rr);
            lemma_mat_cong_refl(b, rr, cc, pa);
            assert(b == rank_input(self.cells(), self.nrows(), self.ncols()));
        }
        let mut rank: usize = 0;
        let mut i: usize = 0;
        while i < nc
            invariant
                upper.wf(),
                p == self.order(),
                upper.order() == p,
                p != 0,
                pa == abs(p),
                pa > 0,
                nr == upper.nrows(),
                nc == upper.ncols(),
                rr == nr,
                cc == nc,
                nc <= nr,
                0 <= i <= nc,
                rank <= i,
                rank == piv.len(),
                is_rect(b, rr, cc),
                is_rect(l, rr, rr),
                is_rect(g, rr, rr),
                mat_mul(g, l, rr, rr) == identity(rr),
                mat_cong(mat_mul(l, b, rr, cc), upper.cells(), rr, cc, pa),
                forall|t: int| 0 <= t < piv.len() ==> 0 <= #[trigger] piv[t] < i,
                forall|s: int, t: int| 0 <= s < t < piv.len() ==> piv[s] < piv[t],
                forall|t: int| 0 <= t < piv.len() ==> has_mod_inverse(upper.cells()[t][#[trigger] piv[t]], p),
                forall|t: int, j: int|
                    0 <= t < piv.len() && 0 <= j < piv[t] ==> #[trigger] upper.cells()[t][j] % pa == 0,
                forall|t: int, j: int| rank <= t < nr && 0 <= j < i ==> #[trigger] upper.cells()[t][j] % pa == 0,
            decreases nc - i,
        {
            proof {
                upper.lemma_shape();
            }
            let change_index = match upper.get_non_zero_coefficient_by_row(rank, i)? {
                Some(idx) => idx,
                None => {
                    proof {
                        assert forall|t: int, j: int| rank <= t < nr && 0 <= j < i + 1 implies #[trigger] upper.cells()[t][j] % pa == 0 by {
                            if j == i {
                                assert(upper.cells()[t][i as int] % pa == 0);
                            }
                        }
                    }
                    i = i + 1;
                    continue;
                },
            };
            if rank != change_index {
                let ghost u0 = upper.cells();
                upper.swap_row(rank, change_index)?;
                proof {
                    let rk = rank as int;
                    let ci = change_index as int;
                    assert(upper.cells()[rk] == u0[ci]);
                    lemma_mul_swap(l, b, rr, cc, rk, ci);
                    lemma_cong_swap(mat_mul(l, b, rr, cc), u0, rr, cc, rk, ci, pa);
                    lemma_left_inverse_swap(g, l, rr, rk, ci);
                    g = col_swap(g, rk, ci);
                    l = swap_rows(l, rk, ci);
                    assert forall|t: int| 0 <= t < piv.len() implies has_mod_inverse(upper.cells()[t][#[trigger] piv[t]], p) by {
                        assert(upper.cells()[t] == u0[t]);
                    }
                    assert forall|t: int, j: int|
                        0 <= t < piv.len() && 0 <= j < piv[t] implies #[trigger] upper.cells()[t][j] % pa == 0 by {
                        assert(upper.cells()[t] == u0[t]);
                    }
                    assert forall|t: int, j: int| rank <= t < nr && 0 <= j < i implies #[trigger] upper.cells()[t][j] % pa == 0 by {
                        if t == rk {
                            assert(upper.cells()[t] == u0[ci]);
                        } else if t == ci {
                            assert(upper.cells()[t] == u0[rk]);
                        } else {
                            assert(upper.cells()[t] == u0[t]);
                        }
                    }
                    assert(is_rect(l, rr, rr));
                }
            }
            proof {
                assert(upper.cells()[rank as int][i as int] % pa != 0);
                if is_prime(pa) {
                    lemma_prime_has_inverse(upper.cells()[rank as int][i as int], p);
                }
            }
            let inverse = upper.mod_inverse(upper.get_raw(rank, i))?;
            let row_i = upper.get_row(rank)?;
            let ghost ui = upper.cells()[rank as int];
            let ghost pivot_val = ui[i as int];
            let mut j = rank + 1;
            while j < nr
                invariant
                    upper.wf(),
                    upper.order() == p,
                    p != 0,
                    pa == abs(p),
                    pa > 0,
                    nr == upper.nrows(),
                    nc == upper.ncols(),
                    rr == nr,
                    cc == nc,
                    nc <= nr,
                    0 <= i < nc,
                    rank <= i,
                    rank == piv.len(),
                    rank + 1 <= j <= nr,
                    is_rect(b, rr, cc),
                    is_rect(l, rr, rr),
                    is_rect(g, rr, rr),
                    mat_mul(g, l, rr, rr) == identity(rr),
                    mat_cong(mat_mul(l, b, rr, cc), upper.cells(), rr, cc, pa),
                    upper.cells()[rank as int] == ui,
                    row_vals(row_i@) == ui,
                    pivot_val == ui[i as int],
                    has_mod_inverse(pivot_val, p),
                    (pivot_val * inverse@) % pa == 1int % pa,
                    forall|t: int| 0 <= t < piv.len() ==> 0 <= #[trigger] piv[t] < i,
                    forall|s: int, t: int| 0 <= s < t < piv.len() ==> piv[s] < piv[t],
                    forall|t: int| 0 <= t < piv.len() ==> has_mod_inverse(upper.cells()[t][#[trigger] piv[t]], p),
                    forall|t: int, c: int|
                        0 <= t < piv.len() && 0 <= c < piv[t] ==> #[trigger] upper.cells()[t][c] % pa == 0,
                    forall|t: int, c: int| rank <= t < nr && 0 <= c < i ==> #[trigger] upper.cells()[t][c] % pa == 0,
                    forall|t: int| rank < t < j ==> #[trigger] upper.cells()[t][i as int] % pa == 0,
                decreases nr - j,
            {
                proof {
                    upper.lemma_shape();
                }
                let ghost u0 = upper.cells();
                let temp_value = big_mul(upper.get_raw(j, i), &inverse);
                let zero = Integer::zero();
                let inverse_diagonal_component = big_sub(&zero, &temp_value);
                let ghost coef = inverse_diagonal_component@;
                let row_j = upper.get_row(j)?;
                let temp_result_slice = multi_scalar(&row_i, &inverse_diagonal_component);
                let new_row = add_slices(&row_j, &temp_result_slice);
                proof {
                    assert(row_vals(row_j@) == u0[j as int]);
                    assert(row_vals(temp_result_slice@) == row_scale(ui, coef));
                    assert(new_row@.len() == nc);
                    assert forall|t: int| 0 <= t < nc implies #[trigger] row_vals(new_row@)[t] == row_axpy(
                        u0[j as int],
                        u0[rank as int],
                        coef,
                    )[t] by {
                        assert(row_vals(row_j@)[t] == row_j@[t]@);
                        assert(row_vals(temp_result_slice@)[t] == temp_result_slice@[t]@);
                    }
                    assert(row_vals(new_row@) =~= row_axpy(u0[j as int], u0[rank as int], coef));
                }
                upper.matrix.set(j, new_row);
                proof {
                    let jj = j as int;
                    let rk = rank as int;
                    let ii = i as int;
                    assert forall|r: int| 0 <= r < nr implies #[trigger] upper.cells()[r] == u0.update(
                        jj,
                        row_axpy(u0[jj], u0[rk], coef),
                    )[r] by {}
                    assert(upper.cells() =~= u0.update(jj, row_axpy(u0[jj], u0[rk], coef)));
                    lemma_mul_row_axpy(l, b, rr, cc, jj, rk, coef);
                    lemma_cong_row_axpy(mat_mul(l, b, rr, cc), u0, rr, cc, jj, rk, coef, pa);
                    lemma_left_inverse_axpy(g, l, rr, jj, rk, coef);
                    g = col_axpy(g, rk, jj, coef);
                    l = l.update(jj, row_axpy(l[jj], l[rk], coef));
                    assert(upper.cells()[jj][ii] % pa == 0) by {
                        let x = u0[jj][ii];
                        let y = pivot_val;
                        let v = inverse@;
                        assert(upper.cells()[jj][ii] == x + y * (0 - x * v));
                        assert(x + y * (0 - x * v) == x * (1 - y * v)) by (nonlinear_arith);
                        lemma_sub_mod_noop(1, y * v, pa);
                        lemma_mod_twice(1, pa);
                        lemma_mod_self_0(pa);
                        assert((1 - y * v) % pa == 0) by {
                            assert((1int % pa - (y * v) % pa) % pa == 0) by {
                                lemma_mod_self_0(pa);
                                lemma_small_mod(0, pa as nat);
                            }
                        }
                        lemma_mul_mod_noop_right(x, 1 - y * v, pa);
                        lemma_mul_basics(x);
                        lemma_small_mod(0, pa as nat);
                    }
                    assert forall|t: int| 0 <= t < piv.len() implies has_mod_inverse(upper.cells()[t][#[trigger] piv[t]], p) by {
                        assert(upper.cells()[t] == u0[t]);
                    }
                    assert forall|t: int, c: int|
                        0 <= t < piv.len() && 0 <= c < piv[t] implies #[trigger] upper.cells()[t][c] % pa == 0 by {
                        assert(upper.cells()[t] == u0[t]);
                    }
                    assert forall|t: int, c: int| rank <= t < nr && 0 <= c < i implies #[trigger] upper.cells()[t][c] % pa == 0 by {
                        if t == jj {
                            let x = u0[jj][c];
                            let y = u0[rk][c];
                            assert(x % pa == 0);
                            assert(y % pa == 0);
                            assert(upper.cells()[t][c] == x + y * coef);
                            lemma_mul_mod_noop_left(y, coef, pa);
                            lemma_mul_basics(coef);
                            lemma_small_mod(0, pa as nat);
                            lemma_add_mod_noop(x, y * coef, pa);
                        } else {
                            assert(upper.cells()[t] == u0[t]);
                        }
                    }
                    assert forall|t: int| rank < t < j + 1 implies #[trigger] upper.cells()[t][ii] % pa == 0 by {
                        if t != jj {
                            assert(upper.cells()[t] == u0[t]);
                        }
                    }
                }
                j = j + 1;
            }
            proof {
                upper.lemma_shape();
            }
            let ghost u_raw = upper.cells();
            upper = upper.modulus();
            proof {
                let rk = rank as int;
                let ii = i as int;
                lemma_mod_cells_cong(u_raw, rr, cc, p);
                lemma_mat_cong_sym(upper.cells(), u_raw, rr, cc, pa);
                lemma_mat_cong_trans(mat_mul(l, b, rr, cc), u_raw, upper.cells(), rr, cc, pa);
                let piv2 = piv.push(ii);
                assert forall|t: int| 0 <= t < piv2.len() implies has_mod_inverse(upper.cells()[t][#[trigger] piv2[t]], p) by {
                    lemma_norm(u_raw[t][piv2[t]], p);
                    lemma_has_mod_inverse_residue(upper.cells()[t][piv2[t]], u_raw[t][piv2[t]], p);
                    if t == rk {
                        assert(u_raw[t][piv2[t]] == pivot_val);
                    }
                }
                assert forall|t: int, c: int|
                    0 <= t < piv2.len() && 0 <= c < piv2[t] implies #[trigger] upper.cells()[t][c] % pa == 0 by {
                    lemma_norm(u_raw[t][c], p);
                }
                assert forall|t: int, c: int| rank + 1 <= t < nr && 0 <= c < i + 1 implies #[trigger] upper.cells()[t][c] % pa == 0 by {
                    lemma_norm(u_raw[t][c], p);
                }
                piv = piv2;
            }
            rank = rank + 1;
            i = i + 1;
        }
        proof {
            let e = upper.cells();
            assert(echelon_mod(e, rr, cc, piv, p));
            lemma_mat_cong_refl(identity(rr), rr, rr, pa);
            assert(mat_cong(mat_mul(g, l, rr, rr), identity(rr), rr, rr, pa));
            assert(rr == if self.nrows() < self.ncols() { self.ncols() } else { self.nrows() });
            assert(cc == if self.nrows() < self.ncols() { self.nrows() } else { self.ncols() });
        }
        proof {
            if pa > 1 && self.nrows() == self.ncols() {
                self.lemma_shape();
                assert(rank_input(self.cells(), self.nrows(), self.ncols()) == self.cells());
                if rank as nat >= self.nrows() {
                    lemma_full_rank_invertible(self.cells(), self.nrows(), p, rank as nat);
                } else {
                    lemma_rank_deficient_not_invertible(self.cells(), self.nrows(), p, rank as nat);
                }
            }
        }
        Ok(rank as u64)
    }
}

impl Matrix {
    /// Computes the Moore-Penrose pseudoinverse `(A^T A)^-1 A^T` modulo the field order, a
    /// left inverse of `A`. Fails when `A` has no columns or `A^T A` cannot be inverted.
    pub fn pseudoinverse(&self) -> (res: Result<Matrix, Error>)
        requires
            self.wf(),
            self.order() != 0,
        ensures
            self.ncols() == 0 ==> res is Err && matrix_error(res->Err_0, "Empty matrix"@),
            res is Err && self.ncols() > 0 ==> matrix_error(
                res->Err_0,
                "not invertible matrix"@,
            ) || matrix_error(res->Err_0, "Not invertible element"@),
            res is Err && self.ncols() > 0 ==> elimination_stuck(
                mat_mul(transpose(self.cells(), self.nrows(), self.ncols()), self.cells(), self.nrows(), self.ncols()),
                self.ncols(),
                self.order(),
            ) || !is_prime(abs(self.order())),
            is_prime(abs(self.order())) && self.ncols() > 0 && invertible_matrix(
                mat_mul(transpose(self.cells(), self.nrows(), self.ncols()), self.cells(), self.nrows(), self.ncols()),
                self.ncols(),
                self.order(),
            ) ==> res is Ok,
            res matches Ok(r) ==> {
                &&& r.wf()
                &&& r.order() == self.order()
                &&& r.nrows() == self.ncols()
                &&& r.ncols() == self.nrows()
                &&& is_pseudoinverse(self.cells(), self.nrows(), self.ncols(), self.order(), r.cells())
                &&& self.order() > 0 ==> forall|b: Seq<Seq<int>>|
                    is_pseudoinverse(self.cells(), self.nrows(), self.ncols(), self.order(), b)
                        ==> b == r.cells()
                &&& mat_cong(
                    mat_mul(r.cells(), self.cells(), self.nrows(), self.ncols()),
                    identity(self.ncols()),
                    self.ncols(),
                    self.ncols(),
                    abs(self.order()),
                )
            },
    {
        let copy = self.duplicate();
        let transpose = self.transpose()?;
        let symmetric_form = transpose.multiply(&copy)?;
        let inverse_symmetric = symmetric_form.inverse()?;
        let result = inverse_symmetric.multiply(&transpose)?;
        let r = result.modulus();
        proof {
            let rows = self.nrows();
            let cols = self.ncols();
            let pa = abs(self.order());
            let a = self.cells();
            let t = transpose.cells();
            let x = inverse_symmetric.cells();
            let r0 = result.cells();
            self.lemma_shape();
            transpose.lemma_shape();
            inverse_symmetric.lemma_shape();
            result.lemma_shape();
            r.lemma_shape();
            assert(symmetric_form.cells() == mat_mul(t, a, rows, cols));
            assert(r0 == mat_mul(x, t, cols, rows));
            // r a == (x t) a == x (t a) == identity
            lemma_mod_cells_cong(r0, cols, rows, self.order());
            lemma_mat_cong_refl(a, rows, cols, pa);
            lemma_mul_cong(r.cells(), r0, a, a, cols, rows, cols, pa);
            lemma_mul_assoc(x, t, a, cols, cols, rows, cols);
            lemma_mat_cong_trans(
                mat_mul(r.cells(), a, rows, cols),
                mat_mul(r0, a, rows, cols),
                identity(cols),
                cols,
                cols,
                pa,
            );
            // any pseudoinverse is this one: its left inverse of A^T A agrees with x
            if self.order() > 0 {
                let sf = symmetric_form.cells();
                assert forall|b: Seq<Seq<int>>| is_pseudoinverse(a, rows, cols, self.order(), b) implies b == r.cells() by {
                    let x2 = choose|x2: Seq<Seq<int>>|
                        #![trigger mat_mul(x2, crate::linalg::transpose(a, rows, cols), cols, rows)]
                        {
                            &&& is_rect(x2, cols, cols)
                            &&& mat_cong(
                                mat_mul(x2, mat_mul(crate::linalg::transpose(a, rows, cols), a, rows, cols), cols, cols),
                                identity(cols),
                                cols,
                                cols,
                                abs(self.order()),
                            )
                            &&& b == mod_cells(mat_mul(x2, crate::linalg::transpose(a, rows, cols), cols, rows), self.order())
                        };
                    law_left_and_right_inverse_agree(sf, cols, x2, x, pa);
                    lemma_mat_cong_refl(t, cols, rows, pa);
                    lemma_mul_cong(x2, x, t, t, cols, cols, rows, pa);
                    lemma_mul_rect(x2, t, cols, cols, rows);
                    lemma_mod_cells_of_cong(mat_mul(x2, t, cols, rows), r0, cols, rows, pa);
                }
            }
        }
        Ok(r)
    }
}

impl Matrix {
    /// Computes the inverse of a square matrix modulo the field order: with `A = self`,
    /// Gaussian elimination gives `L A = U`; the elimination of `K = U^T` gives
    /// `L_K K = D` with `D` diagonal, so `U^-1 = (D^-1 L_K)^T` and `A^-1 = U^-1 L`.
    /// Fails when the matrix is not square or an elimination finds no usable pivot; a
    /// triangular matrix with invertible diagonal always has an inverse (for a field order
    /// other than 1 and -1).
    pub fn inverse(&self) -> (res: Result<Matrix, Error>)
        requires
            self.wf(),
            self.order() != 0,
        ensures
            abs(self.order()) > 1 && self.nrows() == self.ncols() && (upper_with_pivots(
                self.cells(),
                self.nrows(),
                self.order(),
            ) || lower_with_pivots(self.cells(), self.nrows(), self.order())) ==> res is Ok,
            self.nrows() != self.ncols() ==> res is Err && matrix_error(
                res->Err_0,
                "Not a square matrix"@,
            ),
            res is Err && self.nrows() == self.ncols() ==> matrix_error(
                res->Err_0,
                "not invertible matrix"@,
            ) || matrix_error(res->Err_0, "Not invertible element"@),
            res is Err && self.nrows() == self.ncols() ==> elimination_stuck(
                self.cells(),
                self.nrows(),
                self.order(),
            ) || !is_prime(abs(self.order())),
            is_prime(abs(self.order())) && self.nrows() == self.ncols() && invertible_matrix(
                self.cells(),
                self.nrows(),
                self.order(),
            ) ==> res is Ok,
            res matches Ok(r) ==> {
                &&& r.wf()
                &&& r.order() == self.order()
                &&& r.nrows() == self.nrows()
                &&& r.ncols() == self.nrows()
                &&& mat_cong(
                    mat_mul(r.cells(), self.cells(), self.nrows(), self.nrows()),
                    identity(self.nrows()),
                    self.nrows(),
                    self.nrows(),
                    abs(self.order()),
                )
                &&& mat_cong(
                    mat_mul(self.cells(), r.cells(), self.nrows(), self.nrows()),
                    identity(self.nrows()),
                    self.nrows(),
                    self.nrows(),
                    abs(self.order()),
                )
                &&& r.cells() == mod_cells(r.cells(), self.order())
            },
    {
        if self.rows != self.cols {
            proof {
                reveal_strlit("Not a square matrix");
            }
            return Err(Error::MatrixError("Not a square matrix".to_owned()));
        }
        let ghost n = self.nrows();
        let ghost a = self.cells();
        let ghost p = self.order();
        let ghost pa = abs(p);
        proof {
            self.lemma_shape();
            if is_prime(pa) && invertible_matrix(a, n, p) {
                lemma_invertible_not_stuck(a, n, p);
            }
        }
        let (upper_matrix, lower_matrix, _) = self.get_gauss_elimination()?;
        let copy_lower_matrix = lower_matrix.duplicate();
        let transposed_upper = upper_matrix.transpose()?;
        let ghost u = upper_matrix.cells();
        let ghost k = transposed_upper.cells();
        proof {
            upper_matrix.lemma_shape();
            if pa > 1 {
                assert forall|x: int| 0 <= x < n implies #[trigger] k[x][x] != 0 && has_mod_inverse(
                    k[x][x],
                    p,
                ) by {
                    assert(k[x][x] == u[x][x]);
                    assert(has_mod_inverse(u[x][x], p));
                    lemma_zero_not_invertible(p);
                }
                assert(lower_with_pivots(k, n, p));
            }
        }
        let (temp_upper_result, temp_lower_result, _) = transposed_upper.get_gauss_elimination()?;
        let temp_result = temp_lower_result.multi_inverse_diagonal(&temp_upper_result)?;
        let transposed_result = temp_result.transpose()?;
        let result = transposed_result.multiply(&copy_lower_matrix)?;
        let r = result.modulus();
        proof {
            let l1 = copy_lower_matrix.cells();
            let dd = temp_upper_result.cells();
            let l2 = temp_lower_result.cells();
            let m = temp_result.cells();
            let r0 = result.cells();
            lower_matrix.lemma_shape();
            temp_upper_result.lemma_shape();
            temp_lower_result.lemma_shape();
            temp_result.lemma_shape();
            result.lemma_shape();
            r.lemma_shape();
            lemma_mul_rect(r.cells(), a, n, n, n);
            lemma_mul_rect(a, r.cells(), n, n, n);
            if pa == 1 {
                lemma_mat_cong_one(mat_mul(r.cells(), a, n, n), identity(n), n, n);
                lemma_mat_cong_one(mat_mul(a, r.cells(), n, n), identity(n), n, n);
            } else {
                let g2 = choose|g: Seq<Seq<int>>|
                    is_rect(g, n, n) && mat_cong(
                        #[trigger] mat_mul(g, l2, n, n),
                        identity(n),
                        n,
                        n,
                        pa,
                    );
                let ys = Seq::new(
                    n,
                    |i: int|
                        choose|y: int|
                            (dd[i][i] * y) % pa == 1int % pa && m[i] == row_scale(l2[i], y),
                );
                assert forall|i: int| 0 <= i < n implies (dd[i][i] * #[trigger] ys[i]) % pa == 1int
                    % pa && m[i] == row_scale(l2[i], ys[i]) by {
                    assert(scaled_by_inverse(m[i], l2[i], dd[i][i], pa));
                }
                let g1 = choose|g: Seq<Seq<int>>|
                    is_rect(g, n, n) && mat_cong(
                        #[trigger] mat_mul(g, lower_matrix.cells(), n, n),
                        identity(n),
                        n,
                        n,
                        pa,
                    );
                assert(l1 == lower_matrix.cells());
                lemma_inverse_by_factors(a, u, l1, dd, l2, g2, m, ys, g1, n, pa);
                assert(r0 == mat_mul(transpose(m, n, n), l1, n, n));
                lemma_mod_cells_cong(r0, n, n, p);
                lemma_mat_cong_refl(a, n, n, pa);
                lemma_mul_cong(r.cells(), r0, a, a, n, n, n, pa);
                lemma_mat_cong_trans(
                    mat_mul(r.cells(), a, n, n),
                    mat_mul(r0, a, n, n),
                    identity(n),
                    n,
                    n,
                    pa,
                );
                lemma_mul_cong(a, a, r.cells(), r0, n, n, n, pa);
                lemma_mat_cong_trans(
                    mat_mul(a, r.cells(), n, n),
                    mat_mul(a, r0, n, n),
                    identity(n),
                    n,
                    n,
                    pa,
                );
            }
            lemma_mod_cells_idem(r0, p);
        }
        Ok(r)
    }
}

/// Transposing a matrix twice gives it back.
pub proof fn law_transpose_involution(m: &Matrix)
    requires
        m.wf(),
    ensures
        transpose(transpose(m.cells(), m.nrows(), m.ncols()), m.ncols(), m.nrows()) == m.cells(),
{
    m.lemma_shape();
    lemma_transpose_twice(m.cells(), m.nrows(), m.ncols());
}

/// The transpose of a product is the product of the transposes in reverse order.
pub proof fn law_transpose_of_product(a: &Matrix, b: &Matrix)
    requires
        a.wf(),
        b.wf(),
        a.ncols() == b.nrows(),
    ensures
        transpose(mat_mul(a.cells(), b.cells(), a.ncols(), b.ncols()), a.nrows(), b.ncols())
            == mat_mul(
            transpose(b.cells(), b.nrows(), b.ncols()),
            transpose(a.cells(), a.nrows(), a.ncols()),
            b.nrows(),
            a.nrows(),
        ),
{
    a.lemma_shape();
    b.lemma_shape();
    lemma_transpose_mul(a.cells(), b.cells(), a.nrows(), a.ncols(), b.ncols());
}

/// Matrix multiplication is associative.
pub proof fn law_multiply_associative(a: &Matrix, b: &Matrix, c: &Matrix)
    requires
        a.wf(),
        b.wf(),
        c.wf(),
        a.ncols() == b.nrows(),
        b.ncols() == c.nrows(),
    ensures
        mat_mul(mat_mul(a.cells(), b.cells(), a.ncols(), b.ncols()), c.cells(), b.ncols(), c.ncols())
            == mat_mul(
            a.cells(),
            mat_mul(b.cells(), c.cells(), b.ncols(), c.ncols()),
            a.ncols(),
            c.ncols(),
        ),
{
    a.lemma_shape();
    b.lemma_shape();
    c.lemma_shape();
    lemma_mul_assoc(a.cells(), b.cells(), c.cells(), a.nrows(), a.ncols(), b.ncols(), c.ncols());
}

/// The identity matrix leaves a matrix unchanged when it multiplies it from the left.
pub proof fn law_identity_left(m: &Matrix)
    requires
        m.wf(),
    ensures
        mat_mul(identity(m.nrows()), m.cells(), m.nrows(), m.ncols()) == m.cells(),
{
    m.lemma_shape();
    lemma_mul_identity_left(m.cells(), m.nrows(), m.ncols());
}

/// Applying the field modulus twice is the same as applying it once, and keeps every
/// entry's residue.
pub proof fn law_modulus_idempotent(m: &Matrix)
    requires
        m.wf(),
        m.order() != 0,
    ensures
        mod_cells(mod_cells(m.cells(), m.order()), m.order()) == mod_cells(m.cells(), m.order()),
        mat_cong(mod_cells(m.cells(), m.order()), m.cells(), m.nrows(), m.ncols(), abs(m.order())),
{
    m.lemma_shape();
    lemma_mod_cells_idem(m.cells(), m.order());
    lemma_mod_cells_cong(m.cells(), m.nrows(), m.ncols(), m.order());
}

impl Matrix {
    /// Raw element, without applying the modulus.
    fn get_raw(&self, row: usize, col: usize) -> (r: &Integer)
        requires
            self.wf(),
            row < self.nrows(),
            col < self.ncols(),
        ensures
            r@ == self.cells()[row as int][col as int],
    {
        &self.matrix[row][col]
    }

    /// The identity matrix with as many rows as `self`.
    fn identity_matrix(&self) -> (res: Result<Matrix, Error>)
        requires
            self.wf(),
        ensures
            res matches Ok(m) && m.wf() && m.order() == self.order() && m.nrows() == self.nrows()
                && m.ncols() == self.nrows() && m.cells() == identity(self.nrows()),
    {
        let mut data: Vec<Vec<Integer>> = Vec::new();
        let mut i: usize = 0;
        while i < self.rows
            invariant
                self.wf(),
                0 <= i <= self.rows,
                data@.len() == i,
                forall|x: int| 0 <= x < i ==> #[trigger] data@[x]@.len() == self.rows,
                forall|x: int, y: int|
                    0 <= x < i && 0 <= y < self.rows ==> #[trigger] data@[x]@[y]@ == (if x == y {
                        1int
                    } else {
                        0int
                    }),
            decreases self.rows - i,
        {
            let mut row: Vec<Integer> = Vec::new();
            let mut j: usize = 0;
            while j < self.rows
                invariant
                    self.wf(),
                    0 <= i < self.rows,
                    0 <= j <= self.rows,
                    row@.len() == j,
                    forall|y: int| 0 <= y < j ==> #[trigger] row@[y]@ == (if i == y {
                        1int
                    } else {
                        0int
                    }),
                decreases self.rows - j,
            {
                if i == j {
                    row.push(Integer::one());
                } else {
                    row.push(Integer::zero());
                }
                j = j + 1;
            }
            data.push(row);
            i = i + 1;
        }
        proof {
            assert(grid_vals(data@) =~= identity(self.nrows())) by {
                assert forall|x: int| 0 <= x < self.rows implies #[trigger] grid_vals(data@)[x]
                    =~= identity(self.nrows())[x] by {}
            }
            assert forall|x: int| 0 <= x < data@.len() implies #[trigger] data@[x]@.len()
                == data@[0]@.len() by {}
        }
        Matrix::new(self.field_order.clone(), data)
    }

    /// Index of the first row, from `from_row_index` on, whose entry in column
    /// `column_idx` is not zero modulo the field order.
    fn get_non_zero_coefficient_by_row(&self, from_row_index: usize, column_idx: usize) -> (res:
        Result<Option<usize>, Error>)
        requires
            self.wf(),
            self.order() != 0,
            column_idx < self.ncols(),
        ensures
            res is Ok,
            res matches Ok(Some(k)) ==> from_row_index <= k < self.nrows() && self.cells()[k as int][column_idx as int] % abs(self.order()) != 0
                && forall|t: int|
                from_row_index <= t < k ==> #[trigger] self.cells()[t][column_idx as int] % abs(self.order()) == 0,
            res matches Ok(None) ==> forall|t: int|
                from_row_index <= t < self.nrows() ==> #[trigger] self.cells()[t][column_idx as int]
                    % abs(self.order()) == 0,
    {
        let mut i = from_row_index;
        let zero = Integer::zero();
        while i < self.rows
            invariant
                self.wf(),
                self.order() != 0,
                column_idx < self.ncols(),
                from_row_index <= i,
                zero@ == 0,
                forall|t: int| from_row_index <= t < i && t < self.rows ==> #[trigger] self.cells()[t][column_idx as int] % abs(self.order()) == 0,
            decreases self.rows - i,
        {
            let r = big_rem(self.get_raw(i, column_idx), &self.field_order);
            proof {
                lemma_trunc_rem_zero(self.cells()[i as int][column_idx as int], self.order());
            }
            if !big_eq(&r, &zero) {
                return Ok(Some(i));
            }
            i = i + 1;
        }
        Ok(None)
    }

    /// Exchanges two rows, or fails when an index is out of range.
    fn swap_row(&mut self, index_row1: usize, index_row2: usize) -> (res: Result<(), Error>)
        requires
            old(self).wf(),
        ensures
            final(self).wf(),
            final(self).order() == old(self).order(),
            final(self).nrows() == old(self).nrows(),
            final(self).ncols() == old(self).ncols(),
            (index_row1 >= old(self).nrows() || index_row2 >= old(self).nrows()) ==> res is Err
                && matrix_error(res->Err_0, "Row index out of range"@) && final(self).cells()
                == old(self).cells(),
            (index_row1 < old(self).nrows() && index_row2 < old(self).nrows()) ==> res is Ok
                && final(self).cells() == swap_rows(
                old(self).cells(),
                index_row1 as int,
                index_row2 as int,
            ),
    {
        if index_row1 >= self.rows || index_row2 >= self.rows {
            proof {
                reveal_strlit("Row index out of range");
            }
            return Err(Error::MatrixError("Row index out of range".to_owned()));
        }
        if index_row1 == index_row2 {
            proof {
                assert(swap_rows(self.cells(), index_row1 as int, index_row2 as int) =~= self.cells());
            }
            return Ok(());
        }
        let ghost c = self.cells();
        let row1 = clone_row(&self.matrix[index_row1]);
        let row2 = clone_row(&self.matrix[index_row2]);
        self.matrix.set(index_row1, row2);
        self.matrix.set(index_row2, row1);
        proof {
            assert(self.cells() =~= swap_rows(c, index_row1 as int, index_row2 as int));
        }
        Ok(())
    }

    /// Extended Euclidean algorithm: `(gcd(a, b), x)` with `x * a` congruent to the gcd
    /// modulo `b`.
    fn extended_gcd(&self, a: &Integer, b: &Integer) -> (res: (Integer, Integer))
        requires
            a@ >= 0,
            b@ > 0,
        ensures
            res.0@ == gcd(a@ as nat, b@ as nat),
            (res.0@ - res.1@ * a@) % b@ == 0,
    {
        let mut old_r = a.clone();
        let mut r = b.clone();
        let mut old_s = Integer::one();
        let mut s = Integer::zero();
        let zero = Integer::zero();
        proof {
            assert((old_r@ - old_s@ * a@) == 0 * b@);
            lemma_mod_multiples_basic(0, b@);
            assert((r@ - s@ * a@) == 1 * b@);
            lemma_mod_multiples_basic(1, b@);
        }
        while !big_eq(&r, &zero)
            invariant
                a@ >= 0,
                b@ > 0,
                zero@ == 0,
                old_r@ >= 0,
                r@ >= 0,
                gcd(old_r@ as nat, r@ as nat) == gcd(a@ as nat, b@ as nat),
                (old_r@ - old_s@ * a@) % b@ == 0,
                (r@ - s@ * a@) % b@ == 0,
            decreases r@,
        {
            let quotient = big_div(&old_r, &r);
            proof {
                lemma_trunc_nonneg(old_r@, r@);
                lemma_fundamental_div_mod(old_r@, r@);
                lemma_mod_bound(old_r@, r@);
            }
            let qr = big_mul(&quotient, &r);
            let new_r = big_sub(&old_r, &qr);
            let qs = big_mul(&quotient, &s);
            let new_s = big_sub(&old_s, &qs);
            proof {
                let q = quotient@;
                // new_r - new_s * a == (old_r - old_s * a) - q * (r - s * a)
                assert(new_r@ - new_s@ * a@ == (old_r@ - old_s@ * a@) - q * (r@ - s@ * a@))
                    by (nonlinear_arith)
                    requires
                        new_r@ == old_r@ - q * r@,
                        new_s@ == old_s@ - q * s@,
                ;
                lemma_mul_mod_noop_right(q, r@ - s@ * a@, b@);
                lemma_mul_basics(q);
                lemma_small_mod(0, b@ as nat);
                lemma_sub_mod_noop(old_r@ - old_s@ * a@, q * (r@ - s@ * a@), b@);
                assert(new_r@ == old_r@ % r@) by (nonlinear_arith)
                    requires
                        new_r@ == old_r@ - q * r@,
                        old_r@ == r@ * q + old_r@ % r@,
                ;
            }
            old_r = r;
            r = new_r;
            old_s = s;
            s = new_s;
        }
        (old_r, old_s)
    }

    /// Modular multiplicative inverse of `value` modulo the absolute field order, or an
    /// error when it has none.
    fn mod_inverse(&self, value: &Integer) -> (res: Result<Integer, Error>)
        requires
            self.order() != 0,
        ensures
            res is Ok <==> has_mod_inverse(value@, self.order()),
            res matches Ok(x) ==> (value@ * x@) % abs(self.order()) == 1int % abs(self.order()),
            res is Err ==> matrix_error(res->Err_0, "Not invertible element"@),
    {
        let zero = Integer::zero();
        let n = if big_lt(&self.field_order, &zero) {
            big_sub(&zero, &self.field_order)
        } else {
            self.field_order.clone()
        };
        assert(n@ == abs(self.order()));
        let g = if big_lt(value, &zero) {
            let t = big_rem(value, &n);
            big_add(&t, &n)
        } else {
            value.clone()
        };
        proof {
            assert(g@ == gcd_arg(value@, n@));
            lemma_trunc_rem_shape(value@, n@);
            if value@ < 0 {
                lemma_mod_bound(-value@, n@);
            }
        }
        let (d, x) = self.extended_gcd(&g, &n);
        let one = Integer::one();
        if !big_eq(&d, &one) {
            proof {
                reveal_strlit("Not invertible element");
            }
            return Err(Error::MatrixError("Not invertible element".to_owned()));
        }
        let result = if big_lt(&x, &zero) {
            big_add(&x, &n)
        } else {
            x.clone()
        };
        proof {
            let nn = n@;
            // x * g == 1 (mod n) and g == value (mod n)
            assert(g@ % nn == value@ % nn) by {
                if value@ < 0 {
                    lemma_norm(value@, nn);
                    assert(trunc_rem(value@, nn) + nn == norm(value@, nn) || trunc_rem(value@, nn)
                        >= 0);
                    lemma_trunc_rem_shape(value@, nn);
                    lemma_mod_bound(-value@, nn);
                    let t = trunc_rem(value@, nn);
                    assert(norm(value@, nn) == if t < 0 { t + nn } else { t });
                    // g == t + nn and t == norm or t == 0
                    if t < 0 {
                        assert(g@ == norm(value@, nn));
                    } else {
                        assert(t == 0);
                        assert(norm(value@, nn) == 0);
                        lemma_mod_self_0(nn);
                    }
                }
            }
            assert((x@ * g@) % nn == 1int % nn) by {
                assert((1 - x@ * g@) % nn == 0);
                lemma_sub_mod_noop(1, 1 - x@ * g@, nn);
                assert(1 - (1 - x@ * g@) == x@ * g@);
                lemma_mod_twice(1, nn);
                lemma_small_mod(0, nn as nat);
                assert(((1int % nn) - 0int) % nn == 1int % nn);
            }
            assert((value@ * x@) % nn == 1int % nn) by {
                lemma_mul_mod_noop_left(g@, x@, nn);
                lemma_mul_mod_noop_left(value@, x@, nn);
                lemma_mul_is_commutative(g@, x@);
            }
            assert((value@ * result@) % nn == 1int % nn) by {
                if x@ < 0 {
                    assert(value@ * result@ == value@ * x@ + value@ * nn) by (nonlinear_arith)
                        requires
                            result@ == x@ + nn,
                    ;
                    lemma_mod_multiples_vanish(value@, value@ * x@, nn);
                    lemma_mul_is_commutative(value@, nn);
                }
            }
        }
        Ok(result)
    }

    /// Multiplies each row `i` of `self` by the inverse of `diagonal[i][i]`; fails when such
    /// an inverse does not exist.
    fn multi_inverse_diagonal(&self, diagonal: &Matrix) -> (res: Result<Matrix, Error>)
        requires
            self.wf(),
            diagonal.wf(),
            self.order() != 0,
            diagonal.nrows() >= self.nrows(),
            diagonal.ncols() >= self.nrows(),
        ensures
            res is Ok <==> forall|i: int|
                0 <= i < self.nrows() ==> has_mod_inverse(
                    #[trigger] diagonal.cells()[i][i],
                    self.order(),
                ),
            res is Err ==> matrix_error(res->Err_0, "Not invertible element"@),
            res matches Ok(m) ==> {
                &&& m.wf()
                &&& m.order() == self.order()
                &&& m.nrows() == self.nrows()
                &&& m.ncols() == self.ncols()
                &&& forall|i: int|
                    0 <= i < self.nrows() ==> scaled_by_inverse(
                        #[trigger] m.cells()[i],
                        self.cells()[i],
                        diagonal.cells()[i][i],
                        abs(self.order()),
                    )
            },
    {
        let mut result: Vec<Vec<Integer>> = Vec::new();
        let ghost mut invs: Seq<int> = Seq::empty();
        let mut i: usize = 0;
        while i < self.rows
            invariant
                self.wf(),
                diagonal.wf(),
                self.order() != 0,
                diagonal.nrows() >= self.nrows(),
                diagonal.ncols() >= self.nrows(),
                0 <= i <= self.rows,
                result@.len() == i,
                invs.len() == i,
                forall|x: int| 0 <= x < i ==> #[trigger] result@[x]@.len() == self.cols,
                forall|x: int|
                    0 <= x < i ==> has_mod_inverse(#[trigger] diagonal.cells()[x][x], self.order()),
                forall|x: int|
                    0 <= x < i ==> (diagonal.cells()[x][x] * #[trigger] invs[x]) % abs(self.order())
                        == 1int % abs(self.order()),
                forall|x: int|
                    0 <= x < i ==> #[trigger] row_vals(result@[x]@) == row_scale(self.cells()[x], invs[x]),
            decreases self.rows - i,
        {
            let inverse = match self.mod_inverse(diagonal.get_raw(i, i)) {
                Ok(v) => v,
                Err(e) => {
                    return Err(e);
                },
            };
            let row = multi_scalar(&self.matrix[i], &inverse);
            result.push(row);
            proof {
                invs = invs.push(inverse@);
            }
            i = i + 1;
        }
        let m = Matrix {
            field_order: self.field_order.clone(),
            matrix: result,
            rows: self.rows,
            cols: self.cols,
        };
        proof {
            assert forall|x: int| 0 <= x < self.nrows() implies scaled_by_inverse(
                #[trigger] m.cells()[x],
                self.cells()[x],
                diagonal.cells()[x][x],
                abs(self.order()),
            ) by {
                assert(m.cells()[x] == row_vals(result@[x]@));
                assert(row_vals(result@[x]@) == row_scale(self.cells()[x], invs[x]));
            }
        }
        Ok(m)
    }
}

impl Matrix {
    /// Gaussian elimination of a square matrix: returns `(U, L, swaps)` with `L * self`
    /// congruent to the upper triangular `U`, both normalized, and the number of row
    /// exchanges. Fails when a column has no non-zero entry left or a pivot has no inverse;
    /// a triangular matrix with invertible diagonal always succeeds.
    fn get_gauss_elimination(&self) -> (res: Result<(Matrix, Matrix, usize), Error>)
        requires
            self.wf(),
            self.order() != 0,
        ensures
            self.nrows() != self.ncols() ==> res is Err && matrix_error(
                res->Err_0,
                "Not a square matrix"@,
            ),
            res is Err && self.nrows() == self.ncols() ==> (matrix_error(
                res->Err_0,
                "not invertible matrix"@,
            ) && elimination_stuck(self.cells(), self.nrows(), self.order())) || (matrix_error(
                res->Err_0,
                "Not invertible element"@,
            ) && !is_prime(abs(self.order()))),
            res matches Ok((u, l, _)) ==> gauss_result(self.cells(), self.nrows(), self.order(), u, l),
            abs(self.order()) > 1 && self.nrows() == self.ncols() && lower_with_pivots(
                self.cells(),
                self.nrows(),
                self.order(),
            ) ==> (res matches Ok((u, l, k)) && k == 0 && diagonal_result(
                self.cells(),
                self.nrows(),
                self.order(),
                u,
            )),
            abs(self.order()) > 1 && self.nrows() == self.ncols() && upper_with_pivots(
                self.cells(),
                self.nrows(),
                self.order(),
            ) ==> res is Ok,
    {
        if self.rows != self.cols {
            proof {
                reveal_strlit("Not a square matrix");
            }
            return Err(Error::MatrixError("Not a square matrix".to_owned()));
        }
        let n = self.rows;
        let ghost nn = n as nat;
        let ghost a = self.cells();
        let ghost p = self.order();
        let ghost pa = abs(p);
        let ghost lowa = lower_with_pivots(a, nn, p);
        let ghost uppa = upper_with_pivots(a, nn, p);
        let mut lower = match self.identity_matrix() {
            Ok(m) => m,
            Err(e) => {
                return Err(e);
            },
        };
        let mut upper = self.duplicate();
        let mut permutation_times: usize = 0;
        let ghost mut g: Seq<Seq<int>> = identity(nn);
        proof {
            lemma_mul_identity_left(a, nn, nn);
            lemma_mul_identity_left(identity(nn), nn, nn);
        }
        let mut i: usize = 0;
        while i < n
            invariant
                n == self.rows,
                n == self.cols,
                nn == n,
                self.wf(),
                a == self.cells(),
                p == self.order(),
                p != 0,
                pa == abs(p),
                pa > 0,
                lowa == lower_with_pivots(a, nn, p),
                0 <= i <= n,
                upper.wf(),
                lower.wf(),
                upper.order() == p,
                lower.order() == p,
                upper.nrows() == n,
                upper.ncols() == n,
                lower.nrows() == n,
                lower.ncols() == n,
                permutation_times <= i,
                mat_mul(lower.cells(), a, nn, nn) == upper.cells(),
                is_rect(g, nn, nn),
                mat_mul(g, lower.cells(), nn, nn) == identity(nn),
                forall|r: int, c: int| 0 <= c < i && c < r < n ==> #[trigger] upper.cells()[r][c] % pa == 0,
                forall|c: int| 0 <= c < i ==> invertible_mod(#[trigger] upper.cells()[c][c], pa),
                forall|c: int| 0 <= c < i ==> has_mod_inverse(#[trigger] upper.cells()[c][c], p),
                lowa ==> permutation_times == 0,
                lowa ==> lower_exact(upper.cells(), nn),
                lowa ==> forall|c: int| 0 <= c < n ==> #[trigger] upper.cells()[c][c] == a[c][c],
                uppa == upper_with_pivots(a, nn, p),
                uppa ==> upper.cells() == a,
            decreases n - i,
        {
            proof {
                upper.lemma_shape();
                lower.lemma_shape();
            }
            let change_index = match upper.get_non_zero_coefficient_by_row(i, i)? {
                Some(idx) => idx,
                None => {
                    proof {
                        reveal_strlit("not invertible matrix");
                        if (lowa || uppa) && pa > 1 {
                            assert(upper.cells()[i as int][i as int] == a[i as int][i as int]);
                            lemma_invertible_not_multiple(a[i as int][i as int], p);
                        }
                        let l = lower.cells();
                        let e = upper.cells();
                        let ii = i as int;
                        lower.lemma_shape();
                        upper.lemma_shape();
                        lemma_mat_cong_refl(identity(nn), nn, nn, pa);
                        lemma_mat_cong_refl(e, nn, nn, pa);
                        assert(mat_cong(mat_mul(g, l, nn, nn), identity(nn), nn, nn, pa));
                        assert(mat_cong(mat_mul(l, a, nn, nn), e, nn, nn, pa));
                        assert(forall|r: int| ii <= r < nn ==> #[trigger] e[r][ii] % pa == 0);
                        assert(forall|c: int| 0 <= c < ii ==> invertible_mod(#[trigger] e[c][c], pa));
                        assert(stuck_at(a, nn, p, ii));
                        assert(elimination_stuck(a, nn, p));
                    }
                    return Err(Error::MatrixError("not invertible matrix".to_owned()));
                },
            };
            if i != change_index {
                proof {
                    if lowa || uppa {
                        if pa == 1 {
                            lemma_mod_one(upper.cells()[change_index as int][i as int]);
                        }
                        assert(upper.cells()[i as int][i as int] == a[i as int][i as int]);
                        lemma_invertible_not_multiple(a[i as int][i as int], p);
                        assert(upper.cells()[i as int][i as int] % pa == 0);
                    }
                }
                let ghost u0 = upper.cells();
                let ghost l0 = lower.cells();
                permutation_times = permutation_times + 1;
                upper.swap_row(i, change_index)?;
                lower.swap_row(i, change_index)?;
                proof {
                    lemma_mul_swap(l0, a, nn, nn, i as int, change_index as int);
                    lemma_left_inverse_swap(g, l0, nn, i as int, change_index as int);
                    g = col_swap(g, i as int, change_index as int);
                    assert forall|r: int, c: int| 0 <= c < i && c < r < n implies #[trigger] upper.cells()[r][c] % pa == 0 by {
                        if r == i {
                            assert(upper.cells()[r] == u0[change_index as int]);
                        } else if r == change_index {
                            assert(upper.cells()[r] == u0[i as int]);
                        } else {
                            assert(upper.cells()[r] == u0[r]);
                        }
                    }
                    assert forall|c: int| 0 <= c < i implies has_mod_inverse(#[trigger] upper.cells()[c][c], p) by {
                        assert(upper.cells()[c] == u0[c]);
                    }
                }
            }
            proof {
                if is_prime(pa) {
                    lemma_prime_has_inverse(upper.cells()[i as int][i as int], p);
                }
                if (lowa || uppa) && pa > 1 {
                    assert(upper.cells()[i as int][i as int] == a[i as int][i as int]);
                }
            }
            let inverse = self.mod_inverse(upper.get_raw(i, i))?;
            let ghost ui = upper.cells()[i as int];
            let ghost li = lower.cells()[i as int];
            proof {
                assert(((ui[i as int] * inverse@) % pa) == 1int % pa);
            }
            let mut j = i + 1;
            while j < n
                invariant
                    n == self.rows,
                    n == self.cols,
                    nn == n,
                    self.wf(),
                    a == self.cells(),
                    p == self.order(),
                    p != 0,
                    pa == abs(p),
                    pa > 0,
                    lowa == lower_with_pivots(a, nn, p),
                    0 <= i < n,
                    i + 1 <= j <= n,
                    upper.wf(),
                    lower.wf(),
                    upper.order() == p,
                    lower.order() == p,
                    upper.nrows() == n,
                    upper.ncols() == n,
                    lower.nrows() == n,
                    lower.ncols() == n,
                    permutation_times <= i + 1,
                    mat_mul(lower.cells(), a, nn, nn) == upper.cells(),
                    is_rect(g, nn, nn),
                    mat_mul(g, lower.cells(), nn, nn) == identity(nn),
                    upper.cells()[i as int] == ui,
                    lower.cells()[i as int] == li,
                    (ui[i as int] * inverse@) % pa == 1int % pa,
                    forall|r: int, c: int| 0 <= c < i && c < r < n ==> #[trigger] upper.cells()[r][c] % pa == 0,
                    forall|r: int| i < r < j ==> #[trigger] upper.cells()[r][i as int] % pa == 0,
                    forall|c: int| 0 <= c < i ==> invertible_mod(#[trigger] upper.cells()[c][c], pa),
                    forall|c: int| 0 <= c <= i ==> has_mod_inverse(#[trigger] upper.cells()[c][c], p),
                    lowa ==> permutation_times == 0,
                    lowa ==> lower_exact(upper.cells(), nn),
                    lowa ==> forall|c: int| 0 <= c < n ==> #[trigger] upper.cells()[c][c] == a[c][c],
                    uppa == upper_with_pivots(a, nn, p),
                    uppa ==> upper.cells() == a,
                decreases n - j,
            {
                proof {
                    upper.lemma_shape();
                    lower.lemma_shape();
                }
                let ghost u0 = upper.cells();
                let ghost l0 = lower.cells();
                let temp_value = big_mul(upper.get_raw(j, i), &inverse);
                let zero = Integer::zero();
                let inverse_diagonal_component = big_sub(&zero, &temp_value);
                let ghost coef = inverse_diagonal_component@;
                let row_i = upper.get_row(i)?;
                let row_j = upper.get_row(j)?;
                let temp_result_a_slice = multi_scalar(&row_i, &inverse_diagonal_component);
                let new_upper_row = add_slices(&row_j, &temp_result_a_slice);
                proof {
                    assert(row_vals(row_i@) == u0[i as int]);
                    assert(row_vals(row_j@) == u0[j as int]);
                    assert(row_vals(temp_result_a_slice@) == row_scale(u0[i as int], coef));
                    assert(new_upper_row@.len() == n);
                    assert forall|t: int| 0 <= t < n implies #[trigger] row_vals(new_upper_row@)[t] == row_axpy(
                        u0[j as int],
                        u0[i as int],
                        coef,
                    )[t] by {
                        assert(row_vals(row_j@)[t] == row_j@[t]@);
                        assert(row_vals(temp_result_a_slice@)[t] == temp_result_a_slice@[t]@);
                    }
                    assert(row_vals(new_upper_row@) =~= row_axpy(u0[j as int], u0[i as int], coef));
                }
                upper.matrix.set(j, new_upper_row);
                proof {
                    assert forall|r: int| 0 <= r < n implies #[trigger] upper.cells()[r] == u0.update(
                        j as int,
                        row_axpy(u0[j as int], u0[i as int], coef),
                    )[r] by {}
                }
                let row_lower_i = lower.get_row(i)?;
                let row_lower_j = lower.get_row(j)?;
                let temp_result_identity_slice = multi_scalar(
                    &row_lower_i,
                    &inverse_diagonal_component,
                );
                let new_lower_row = add_slices(&row_lower_j, &temp_result_identity_slice);
                proof {
                    assert(row_vals(row_lower_i@) == l0[i as int]);
                    assert(row_vals(row_lower_j@) == l0[j as int]);
                    assert(row_vals(temp_result_identity_slice@) == row_scale(l0[i as int], coef));
                    assert(new_lower_row@.len() == n);
                    assert forall|t: int| 0 <= t < n implies #[trigger] row_vals(new_lower_row@)[t] == row_axpy(
                        l0[j as int],
                        l0[i as int],
                        coef,
                    )[t] by {
                        assert(row_vals(row_lower_j@)[t] == row_lower_j@[t]@);
                        assert(row_vals(temp_result_identity_slice@)[t] == temp_result_identity_slice@[t]@);
                    }
                    assert(row_vals(new_lower_row@) =~= row_axpy(l0[j as int], l0[i as int], coef));
                }
                lower.matrix.set(j, new_lower_row);
                proof {
                    assert forall|r: int| 0 <= r < n implies #[trigger] lower.cells()[r] == l0.update(
                        j as int,
                        row_axpy(l0[j as int], l0[i as int], coef),
                    )[r] by {}
                }
                proof {
                    let jj = j as int;
                    let ii = i as int;
                    assert(upper.cells() =~= u0.update(jj, row_axpy(u0[jj], u0[ii], coef)));
                    assert(lower.cells() =~= l0.update(jj, row_axpy(l0[jj], l0[ii], coef)));
                    lemma_mul_row_axpy(l0, a, nn, nn, jj, ii, coef);
                    lemma_left_inverse_axpy(g, l0, nn, jj, ii, coef);
                    g = col_axpy(g, ii, jj, coef);
                    // the eliminated entry
                    assert(upper.cells()[jj][ii] % pa == 0) by {
                        let x = u0[jj][ii];
                        let y = ui[ii];
                        let v = inverse@;
                        assert(upper.cells()[jj][ii] == x + y * (0 - x * v));
                        assert(x + y * (0 - x * v) == x * (1 - y * v)) by (nonlinear_arith);
                        lemma_sub_mod_noop(1, y * v, pa);
                        lemma_mod_twice(1, pa);
                        lemma_mod_self_0(pa);
                        assert((1 - y * v) % pa == 0) by {
                            assert((1int % pa - (y * v) % pa) % pa == 0) by {
                                lemma_mod_self_0(pa);
                                lemma_small_mod(0, pa as nat);
                            }
                        }
                        lemma_mul_mod_noop_right(x, 1 - y * v, pa);
                        lemma_mul_basics(x);
                        lemma_small_mod(0, pa as nat);
                    }
                    assert forall|r: int, c: int| 0 <= c < i && c < r < n implies #[trigger] upper.cells()[r][c] % pa == 0 by {
                        if r == jj {
                            let x = u0[jj][c];
                            let y = u0[ii][c];
                            assert(u0[ii][c] % pa == 0);
                            assert(upper.cells()[r][c] == x + y * coef);
                            lemma_mul_mod_noop_left(y, coef, pa);
                            lemma_mul_basics(coef);
                            lemma_small_mod(0, pa as nat);
                            lemma_add_mod_noop(x, y * coef, pa);
                        } else {
                            assert(upper.cells()[r] == u0[r]);
                        }
                    }
                    assert forall|r: int| i < r < j + 1 implies #[trigger] upper.cells()[r][ii] % pa == 0 by {
                        if r != jj {
                            assert(upper.cells()[r] == u0[r]);
                        }
                    }
                    assert forall|c: int| 0 <= c <= i implies has_mod_inverse(#[trigger] upper.cells()[c][c], p) by {
                        assert(upper.cells()[c] == u0[c]);
                    }
                    if uppa {
                        assert(u0[jj][ii] == 0);
                        assert(coef == 0);
                        assert(upper.cells()[jj] =~= u0[jj]);
                        assert(upper.cells() =~= u0);
                    }
                    if lowa {
                        assert forall|x: int, y: int| 0 <= x < y < nn implies #[trigger] upper.cells()[x][y] == 0 by {
                            if x == jj {
                                assert(u0[jj][y] == 0);
                                assert(u0[ii][y] == 0);
                                assert(upper.cells()[x][y] == u0[jj][y] + u0[ii][y] * coef);
                            } else {
                                assert(upper.cells()[x] == u0[x]);
                            }
                        }
                        assert forall|c: int| 0 <= c < n implies #[trigger] upper.cells()[c][c] == a[c][c] by {
                            if c == jj {
                                assert(u0[ii][jj] == 0);
                                assert(upper.cells()[c][c] == u0[jj][jj] + u0[ii][jj] * coef);
                            } else {
                                assert(upper.cells()[c] == u0[c]);
                            }
                        }
                    }
                }
                j = j + 1;
            }
            i = i + 1;
        }
        proof {
            upper.lemma_shape();
            lower.lemma_shape();
        }
        let ghost u_raw = upper.cells();
        let ghost l_raw = lower.cells();
        let upper_f = upper.modulus();
        let lower_f = lower.modulus();
        proof {
            lemma_mod_cells_cong(u_raw, nn, nn, p);
            lemma_mod_cells_cong(l_raw, nn, nn, p);
            lemma_mod_cells_idem(u_raw, p);
            lemma_mod_cells_idem(l_raw, p);
            // l_f * a == l * a == u == u_f  (mod |p|)
            lemma_mat_cong_refl(a, nn, nn, pa);
            lemma_mul_cong(lower_f.cells(), l_raw, a, a, nn, nn, nn, pa);
            lemma_mat_cong_sym(upper_f.cells(), u_raw, nn, nn, pa);
            lemma_mat_cong_trans(mat_mul(lower_f.cells(), a, nn, nn), u_raw, upper_f.cells(), nn, nn, pa);
            // g * l_f == g * l == identity
            lemma_mat_cong_refl(g, nn, nn, pa);
            lemma_mul_cong(g, g, lower_f.cells(), l_raw, nn, nn, nn, pa);
            assert(is_rect(g, nn, nn) && mat_cong(mat_mul(g, lower_f.cells(), nn, nn), identity(nn), nn, nn, pa));
            assert forall|c: int| 0 <= c < n implies has_mod_inverse(#[trigger] upper_f.cells()[c][c], p) by {
                lemma_norm(u_raw[c][c], p);
                lemma_has_mod_inverse_residue(upper_f.cells()[c][c], u_raw[c][c], p);
            }
            if lowa {
                assert forall|x: int, y: int|
                    0 <= x < nn && 0 <= y < nn && x != y implies #[trigger] upper_f.cells()[x][y] == 0 by {
                    if x < y {
                        assert(u_raw[x][y] == 0);
                        lemma_norm(0, p);
                    } else {
                        assert(u_raw[x][y] % pa == 0);
                    }
                }
            }
        }
        Ok((upper_f, lower_f, permutation_times))
    }
}

/// `slice[t] * scalar` for every entry.
fn multi_scalar(slice: &Vec<Integer>, scalar: &Integer) -> (r: Vec<Integer>)
    ensures
        r@.len() == slice@.len(),
        row_vals(r@) == row_scale(row_vals(slice@), scalar@),
{
    let mut r: Vec<Integer> = Vec::new();
    let mut i: usize = 0;
    while i < slice.len()
        invariant
            0 <= i <= slice@.len(),
            r@.len() == i,
            forall|k: int| 0 <= k < i ==> #[trigger] r@[k]@ == slice@[k]@ * scalar@,
        decreases slice@.len() - i,
    {
        r.push(big_mul(&slice[i], scalar));
        i = i + 1;
    }
    assert(row_vals(r@) =~= row_scale(row_vals(slice@), scalar@));
    r
}

/// Entry-wise sum over the common length of the two slices.
fn add_slices(slice1: &Vec<Integer>, slice2: &Vec<Integer>) -> (r: Vec<Integer>)
    ensures
        r@.len() == if slice1@.len() < slice2@.len() { slice1@.len() } else { slice2@.len() },
        forall|k: int| 0 <= k < r@.len() ==> #[trigger] r@[k]@ == slice1@[k]@ + slice2@[k]@,
{
    let n = if slice1.len() < slice2.len() { slice1.len() } else { slice2.len() };
    let mut r: Vec<Integer> = Vec::new();
    let mut i: usize = 0;
    while i < n
        invariant
            n <= slice1@.len(),
            n <= slice2@.len(),
            0 <= i <= n,
            r@.len() == i,
            forall|k: int| 0 <= k < i ==> #[trigger] r@[k]@ == slice1@[k]@ + slice2@[k]@,
        decreases n - i,
    {
        r.push(big_add(&slice1[i], &slice2[i]));
        i = i + 1;
    }
    r
}

/// A copy of a row.
fn clone_row(v: &Vec<Integer>) -> (r: Vec<Integer>)
    ensures
        r@.len() == v@.len(),
        row_vals(r@) == row_vals(v@),
{
    let mut r: Vec<Integer> = Vec::new();
    let mut i: usize = 0;
    while i < v.len()
        invariant
            0 <= i <= v@.len(),
            r@.len() == i,
            forall|k: int| 0 <= k < i ==> #[trigger] r@[k]@ == v@[k]@,
        decreases v@.len() - i,
    {
        r.push(v[i].clone());
        i = i + 1;
    }
    assert(row_vals(r@) =~= row_vals(v@));
    r
}

} // verus!
