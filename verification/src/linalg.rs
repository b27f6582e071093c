//! Mathematical model of integer matrices: products, transposes, row operations and
//! congruence modulo a positive integer, with the lemmas the matrix algorithms rest on.

use vstd::prelude::*;
use vstd::arithmetic::div_mod::*;
use vstd::arithmetic::mul::*;
use crate::integer::{trunc_rem, trunc_div, abs};

verus! {

/// `sum_{t < k} x[t] * b[t][j]`
pub open spec fn dot(x: Seq<int>, b: Seq<Seq<int>>, j: int, k: nat) -> int
    decreases k,
{
    if k == 0 {
        0
    } else {
        dot(x, b, j, (k - 1) as nat) + x[k - 1] * b[k - 1][j]
    }
}

/// Product of `a` (whose rows have `n` entries) and `b` (`n` rows of `p` entries).
pub open spec fn mat_mul(a: Seq<Seq<int>>, b: Seq<Seq<int>>, n: nat, p: nat) -> Seq<Seq<int>> {
    Seq::new(a.len(), |i: int| Seq::new(p, |j: int| dot(a[i], b, j, n)))
}

/// Transpose of a `rows` x `cols` matrix.
pub open spec fn transpose(c: Seq<Seq<int>>, rows: nat, cols: nat) -> Seq<Seq<int>> {
    Seq::new(cols, |j: int| Seq::new(rows, |i: int| c[i][j]))
}

/// The `n` x `n` identity matrix.
pub open spec fn identity(n: nat) -> Seq<Seq<int>> {
    Seq::new(n, |i: int| Seq::new(n, |j: int| if i == j { 1int } else { 0int }))
}

/// `c` has `r` rows of `k` entries each.
pub open spec fn is_rect(c: Seq<Seq<int>>, r: nat, k: nat) -> bool {
    &&& c.len() == r
    &&& forall|i: int| 0 <= i < r ==> #[trigger] c[i].len() == k
}

/// `x` and `y` are congruent modulo `p`.
pub open spec fn cong(x: int, y: int, p: int) -> bool {
    x % p == y % p
}

/// Entry-wise congruence of two `r` x `k` matrices.
pub open spec fn mat_cong(a: Seq<Seq<int>>, b: Seq<Seq<int>>, r: nat, k: nat, p: int) -> bool {
    &&& is_rect(a, r, k)
    &&& is_rect(b, r, k)
    &&& forall|i: int, j: int| 0 <= i < r && 0 <= j < k ==> cong(#[trigger] a[i][j], b[i][j], p)
}

/// Truncated remainder moved up by the modulus when negative.
pub open spec fn norm(e: int, m: int) -> int {
    let r = trunc_rem(e, m);
    if r < 0 {
        r + m
    } else {
        r
    }
}

/// Every entry of `c` normalized modulo `m`.
pub open spec fn mod_cells(c: Seq<Seq<int>>, m: int) -> Seq<Seq<int>> {
    Seq::new(c.len(), |i: int| Seq::new(c[i].len(), |j: int| norm(c[i][j], m)))
}

/// `x + c * y`, entry-wise.
pub open spec fn row_axpy(x: Seq<int>, y: Seq<int>, c: int) -> Seq<int> {
    Seq::new(x.len(), |t: int| x[t] + y[t] * c)
}

/// `x * c`, entry-wise.
pub open spec fn row_scale(x: Seq<int>, c: int) -> Seq<int> {
    Seq::new(x.len(), |t: int| x[t] * c)
}

/// `c` with rows `r` and `s` exchanged.
pub open spec fn swap_rows(c: Seq<Seq<int>>, r: int, s: int) -> Seq<Seq<int>> {
    c.update(r, c[s]).update(s, c[r])
}

/// Entries strictly above the diagonal are zero.
pub open spec fn lower_exact(c: Seq<Seq<int>>, n: nat) -> bool {
    forall|i: int, j: int| 0 <= i < j < n ==> #[trigger] c[i][j] == 0
}

/// `x` has a multiplicative inverse modulo `p`.
pub open spec fn invertible_mod(x: int, p: int) -> bool {
    exists|y: int| #[trigger] (x * y) % p == 1int % p
}

/// Greatest common divisor by Euclid's algorithm.
pub open spec fn gcd(a: nat, b: nat) -> nat
    decreases b,
{
    if b == 0 {
        a
    } else {
        gcd(b, a % b)
    }
}

// ---------------------------------------------------------------------------
// Normalization
// ---------------------------------------------------------------------------

pub proof fn lemma_trunc_nonneg(e: int, m: int)
    requires
        m > 0,
        e >= 0,
    ensures
        trunc_div(e, m) == e / m,
        trunc_rem(e, m) == e % m,
{
    lemma_fundamental_div_mod(e, m);
}

/// For a positive modulus, normalization is the Euclidean remainder.
pub proof fn lemma_norm_is_mod(e: int, m: int)
    requires
        m > 0,
    ensures
        norm(e, m) == e % m,
        0 <= norm(e, m) < m,
{
    lemma_mod_bound(e, m);
    if e >= 0 {
        lemma_trunc_nonneg(e, m);
    } else {
        let q = (-e) / m;
        assert(abs(e) == -e);
        assert(trunc_div(e, m) == -q);
        lemma_fundamental_div_mod(-e, m);
        lemma_mod_bound(-e, m);
        let r0 = (-e) % m;
        assert(-e == m * q + r0);
        assert(trunc_rem(e, m) == e - m * (-q)) by {
            assert(trunc_rem(e, m) == e - m * trunc_div(e, m));
        }
        assert(m * (-q) == -(m * q)) by {
            lemma_mul_unary_negation(m, q);
            lemma_mul_is_commutative(m, -q);
            lemma_mul_is_commutative(-q, m);
            lemma_mul_unary_negation(q, m);
            lemma_mul_is_commutative(q, m);
        }
        assert(trunc_rem(e, m) == -r0);
        if r0 == 0 {
            assert(e == m * (-q)) by {
                lemma_mul_unary_negation(q, m);
                lemma_mul_is_commutative(q, m);
                lemma_mul_is_commutative(-q, m);
            }
            lemma_mod_multiples_basic(-q, m);
            lemma_mul_is_commutative(-q, m);
        } else {
            assert(e == m * (-q - 1) + (m - r0)) by {
                lemma_mul_is_distributive_sub(m, -q, 1);
            }
            lemma_mul_is_commutative(m, -q - 1);
            lemma_mod_multiples_vanish(-q - 1, m - r0, m);
            lemma_small_mod((m - r0) as nat, m as nat);
        }
    }
}

/// Truncated remainder: the Euclidean remainder of the magnitudes, with the sign of `e`.
pub proof fn lemma_trunc_rem_shape(e: int, m: int)
    requires
        m != 0,
    ensures
        trunc_rem(e, m) == if e >= 0 { e % abs(m) } else { -((-e) % abs(m)) },
{
    let am = abs(m);
    let ae = abs(e);
    let q = ae / am;
    lemma_fundamental_div_mod(ae, am);
    assert(ae == am * q + ae % am);
    if m > 0 {
        if e >= 0 {
            assert(trunc_div(e, m) == q);
        } else {
            assert(trunc_div(e, m) == -q);
            assert(m * (-q) == -(m * q)) by (nonlinear_arith);
        }
    } else {
        assert(am == -m);
        if e >= 0 {
            assert(trunc_div(e, m) == -q);
            assert(m * (-q) == am * q) by (nonlinear_arith)
                requires
                    am == -m,
            ;
        } else {
            assert(trunc_div(e, m) == q);
            assert(m * q == -(am * q)) by (nonlinear_arith)
                requires
                    am == -m,
            ;
        }
    }
}

/// Normalization keeps the residue modulo `|m|`, maps multiples of `m` to 0, and for a
/// positive modulus is the Euclidean remainder.
pub proof fn lemma_norm(e: int, m: int)
    requires
        m != 0,
    ensures
        norm(e, m) % abs(m) == e % abs(m),
        e % abs(m) == 0 ==> norm(e, m) == 0,
        m > 0 ==> norm(e, m) == e % m,
        m > 0 ==> 0 <= norm(e, m) < m,
{
    let am = abs(m);
    lemma_trunc_rem_shape(e, m);
    lemma_mod_bound(e, am);
    if e >= 0 {
        lemma_mod_twice(e, am);
        if m > 0 {
            lemma_norm_is_mod(e, m);
        }
    } else {
        lemma_mod_bound(-e, am);
        let r0 = (-e) % am;
        let q = (-e) / am;
        lemma_fundamental_div_mod(-e, am);
        // e == am * (-q) - r0
        assert(e == am * (-q) - r0) by (nonlinear_arith)
            requires
                -e == am * q + r0,
        ;
        if r0 == 0 {
            lemma_mod_multiples_basic(-q, am);
            lemma_mul_is_commutative(-q, am);
            lemma_small_mod(0, am as nat);
        } else {
            // e % am == am - r0
            assert(e == am * (-q - 1) + (am - r0)) by (nonlinear_arith)
                requires
                    e == am * (-q) - r0,
            ;
            lemma_mul_is_commutative(am, -q - 1);
            lemma_mod_multiples_vanish(-q - 1, am - r0, am);
            lemma_small_mod((am - r0) as nat, am as nat);
            assert(e % am == am - r0);
            // norm(e, m) == -r0 + m
            if m > 0 {
                lemma_norm_is_mod(e, m);
            } else {
                // -r0 + m == (am - r0) + am * (-2)
                assert(-r0 + m == (am - r0) + (-2) * am);
                lemma_mod_multiples_vanish(-2, am - r0, am);
            }
        }
    }
}

/// A normalized matrix is congruent, modulo `|m|`, to the matrix it normalizes.
pub proof fn lemma_mod_cells_cong(c: Seq<Seq<int>>, r: nat, k: nat, m: int)
    requires
        m != 0,
        is_rect(c, r, k),
    ensures
        mat_cong(mod_cells(c, m), c, r, k, abs(m)),
        is_rect(mod_cells(c, m), r, k),
        forall|i: int, j: int|
            0 <= i < r && 0 <= j < k && c[i][j] % abs(m) == 0 ==> #[trigger] mod_cells(c, m)[i][j]
                == 0,
        m > 0 ==> forall|i: int, j: int|
            0 <= i < r && 0 <= j < k ==> 0 <= #[trigger] mod_cells(c, m)[i][j] < m,
{
    assert forall|i: int, j: int| 0 <= i < r && 0 <= j < k implies cong(
        #[trigger] mod_cells(c, m)[i][j],
        c[i][j],
        abs(m),
    ) && (c[i][j] % abs(m) == 0 ==> mod_cells(c, m)[i][j] == 0) && (m > 0 ==> 0 <= mod_cells(
        c,
        m,
    )[i][j] < m) by {
        lemma_norm(c[i][j], m);
    }
}

/// Normalizing twice changes nothing.
pub proof fn lemma_mod_cells_idem(c: Seq<Seq<int>>, m: int)
    requires
        m != 0,
    ensures
        mod_cells(mod_cells(c, m), m) == mod_cells(c, m),
{
    let c1 = mod_cells(c, m);
    assert forall|i: int| 0 <= i < c.len() implies #[trigger] mod_cells(c1, m)[i] == c1[i] by {
        assert forall|j: int| 0 <= j < c[i].len() implies #[trigger] mod_cells(c1, m)[i][j]
            == c1[i][j] by {
            lemma_norm_idem(c[i][j], m);
        }
        assert(mod_cells(c1, m)[i] =~= c1[i]);
    }
    assert(mod_cells(c1, m) =~= c1);
}

proof fn lemma_norm_idem(e: int, m: int)
    requires
        m != 0,
    ensures
        norm(norm(e, m), m) == norm(e, m),
{
    let x = norm(e, m);
    lemma_trunc_rem_shape(e, m);
    lemma_trunc_rem_shape(x, m);
    let am = abs(m);
    lemma_mod_bound(e, am);
    lemma_mod_bound(-e, am);
    if e >= 0 {
        lemma_mod_twice(e, am);
    } else {
        let t = -((-e) % am);
        if t < 0 {
            // x == t + m
            if m > 0 {
                lemma_small_mod(x as nat, am as nat);
            } else {
                // x < 0: -x == -t - m == (-e % am) + am, in (am, 2 am)
                assert(-x == ((-e) % am) + am);
                lemma_mod_multiples_vanish(1, (-e) % am, am);
                lemma_small_mod(((-e) % am) as nat, am as nat);
                lemma_mul_basics(am);
                assert((-x) % am == (-e) % am);
            }
        } else {
            assert(x == 0);
        }
    }
}

// ---------------------------------------------------------------------------
// Dot products
// ---------------------------------------------------------------------------

pub proof fn lemma_dot_identity_row(n: nat, i: int, b: Seq<Seq<int>>, j: int, k: nat)
    requires
        0 <= i < n,
        k <= n,
    ensures
        dot(identity(n)[i], b, j, k) == if i < k { b[i][j] } else { 0 },
    decreases k,
{
    if k > 0 {
        lemma_dot_identity_row(n, i, b, j, (k - 1) as nat);
    }
}

pub proof fn lemma_mul_identity_left(b: Seq<Seq<int>>, n: nat, p: nat)
    requires
        is_rect(b, n, p),
    ensures
        mat_mul(identity(n), b, n, p) == b,
{
    assert forall|i: int| 0 <= i < n implies #[trigger] mat_mul(identity(n), b, n, p)[i] == b[i] by {
        assert forall|j: int| 0 <= j < p implies #[trigger] mat_mul(identity(n), b, n, p)[i][j]
            == b[i][j] by {
            lemma_dot_identity_row(n, i, b, j, n);
        }
        assert(mat_mul(identity(n), b, n, p)[i] =~= b[i]);
    }
    assert(mat_mul(identity(n), b, n, p) =~= b);
}

pub proof fn lemma_dot_identity_col(x: Seq<int>, n: nat, j: int, k: nat)
    requires
        0 <= j < n,
        k <= n,
    ensures
        dot(x, identity(n), j, k) == if j < k { x[j] } else { 0 },
    decreases k,
{
    if k > 0 {
        lemma_dot_identity_col(x, n, j, (k - 1) as nat);
    }
}

pub proof fn lemma_mul_identity_right(a: Seq<Seq<int>>, r: nat, n: nat)
    requires
        is_rect(a, r, n),
    ensures
        mat_mul(a, identity(n), n, n) == a,
{
    assert forall|i: int| 0 <= i < r implies #[trigger] mat_mul(a, identity(n), n, n)[i] == a[i] by {
        assert forall|j: int| 0 <= j < n implies #[trigger] mat_mul(a, identity(n), n, n)[i][j]
            == a[i][j] by {
            lemma_dot_identity_col(a[i], n, j, n);
        }
        assert(mat_mul(a, identity(n), n, n)[i] =~= a[i]);
    }
    assert(mat_mul(a, identity(n), n, n) =~= a);
}

pub proof fn lemma_dot_axpy(x: Seq<int>, y: Seq<int>, c: int, b: Seq<Seq<int>>, j: int, k: nat)
    requires
        k <= x.len(),
        x.len() == y.len(),
    ensures
        dot(row_axpy(x, y, c), b, j, k) == dot(x, b, j, k) + c * dot(y, b, j, k),
    decreases k,
{
    if k > 0 {
        let k1 = (k - 1) as nat;
        lemma_dot_axpy(x, y, c, b, j, k1);
        let t = k - 1;
        assert((x[t] + y[t] * c) * b[t][j] == x[t] * b[t][j] + c * (y[t] * b[t][j])) by (
        nonlinear_arith);
        assert(c * dot(y, b, j, k) == c * dot(y, b, j, k1) + c * (y[t] * b[t][j])) by {
            lemma_mul_is_distributive_add(c, dot(y, b, j, k1), y[t] * b[t][j]);
        }
    }
}

pub proof fn lemma_dot_scale(x: Seq<int>, c: int, b: Seq<Seq<int>>, j: int, k: nat)
    requires
        k <= x.len(),
    ensures
        dot(row_scale(x, c), b, j, k) == c * dot(x, b, j, k),
    decreases k,
{
    if k > 0 {
        let k1 = (k - 1) as nat;
        lemma_dot_scale(x, c, b, j, k1);
        let t = k - 1;
        assert((x[t] * c) * b[t][j] == c * (x[t] * b[t][j])) by (nonlinear_arith);
        assert(c * dot(x, b, j, k) == c * dot(x, b, j, k1) + c * (x[t] * b[t][j])) by {
            lemma_mul_is_distributive_add(c, dot(x, b, j, k1), x[t] * b[t][j]);
        }
    }
}

/// Congruent rows give congruent dot products.
pub proof fn lemma_dot_cong(
    x: Seq<int>,
    x2: Seq<int>,
    b: Seq<Seq<int>>,
    b2: Seq<Seq<int>>,
    j: int,
    k: nat,
    p: int,
)
    requires
        p > 0,
        forall|t: int| 0 <= t < k ==> cong(#[trigger] x[t], x2[t], p),
        forall|t: int| 0 <= t < k ==> cong(#[trigger] b[t][j], b2[t][j], p),
    ensures
        cong(dot(x, b, j, k), dot(x2, b2, j, k), p),
    decreases k,
{
    if k > 0 {
        let k1 = (k - 1) as nat;
        let t = k - 1;
        lemma_dot_cong(x, x2, b, b2, j, k1, p);
        assert(cong(x[t], x2[t], p));
        assert(cong(b[t][j], b2[t][j], p));
        assert(cong(x[t] * b[t][j], x2[t] * b2[t][j], p)) by {
            lemma_mul_mod_noop(x[t], b[t][j], p);
            lemma_mul_mod_noop(x2[t], b2[t][j], p);
        }
        lemma_add_mod_noop(dot(x, b, j, k1), x[t] * b[t][j], p);
        lemma_add_mod_noop(dot(x2, b2, j, k1), x2[t] * b2[t][j], p);
    }
}

/// Products of congruent matrices are congruent.
pub proof fn lemma_mul_cong(
    a: Seq<Seq<int>>,
    a2: Seq<Seq<int>>,
    b: Seq<Seq<int>>,
    b2: Seq<Seq<int>>,
    r: nat,
    n: nat,
    q: nat,
    p: int,
)
    requires
        p > 0,
        mat_cong(a, a2, r, n, p),
        mat_cong(b, b2, n, q, p),
    ensures
        mat_cong(mat_mul(a, b, n, q), mat_mul(a2, b2, n, q), r, q, p),
{
    assert forall|i: int, j: int| 0 <= i < r && 0 <= j < q implies cong(
        #[trigger] mat_mul(a, b, n, q)[i][j],
        mat_mul(a2, b2, n, q)[i][j],
        p,
    ) by {
        assert forall|t: int| 0 <= t < n implies cong(#[trigger] a[i][t], a2[i][t], p) by {}
        assert forall|t: int| 0 <= t < n implies cong(#[trigger] b[t][j], b2[t][j], p) by {}
        lemma_dot_cong(a[i], a2[i], b, b2, j, n, p);
    }
}

pub proof fn lemma_mat_cong_refl(a: Seq<Seq<int>>, r: nat, k: nat, p: int)
    requires
        is_rect(a, r, k),
    ensures
        mat_cong(a, a, r, k, p),
{
}

pub proof fn lemma_mat_cong_sym(a: Seq<Seq<int>>, b: Seq<Seq<int>>, r: nat, k: nat, p: int)
    requires
        mat_cong(a, b, r, k, p),
    ensures
        mat_cong(b, a, r, k, p),
{
    assert forall|i: int, j: int| 0 <= i < r && 0 <= j < k implies cong(
        #[trigger] b[i][j],
        a[i][j],
        p,
    ) by {
        assert(cong(a[i][j], b[i][j], p));
    }
}

pub proof fn lemma_mat_cong_trans(
    a: Seq<Seq<int>>,
    b: Seq<Seq<int>>,
    c: Seq<Seq<int>>,
    r: nat,
    k: nat,
    p: int,
)
    requires
        mat_cong(a, b, r, k, p),
        mat_cong(b, c, r, k, p),
    ensures
        mat_cong(a, c, r, k, p),
{
    assert forall|i: int, j: int| 0 <= i < r && 0 <= j < k implies cong(
        #[trigger] a[i][j],
        c[i][j],
        p,
    ) by {
        assert(cong(a[i][j], b[i][j], p));
        assert(cong(b[i][j], c[i][j], p));
    }
}

pub proof fn lemma_mul_rect(a: Seq<Seq<int>>, b: Seq<Seq<int>>, r: nat, n: nat, q: nat)
    requires
        a.len() == r,
    ensures
        is_rect(mat_mul(a, b, n, q), r, q),
{
}

// ---------------------------------------------------------------------------
// Row operations
// ---------------------------------------------------------------------------

/// Adding `c` times row `s` to row `r` of the left factor does the same to the product.
pub proof fn lemma_mul_row_axpy(
    l: Seq<Seq<int>>,
    b: Seq<Seq<int>>,
    n: nat,
    q: nat,
    r: int,
    s: int,
    c: int,
)
    requires
        0 <= r < l.len(),
        0 <= s < l.len(),
        l[r].len() == n,
        l[s].len() == n,
    ensures
        mat_mul(l.update(r, row_axpy(l[r], l[s], c)), b, n, q) == mat_mul(l, b, n, q).update(
            r,
            row_axpy(mat_mul(l, b, n, q)[r], mat_mul(l, b, n, q)[s], c),
        ),
{
    let l2 = l.update(r, row_axpy(l[r], l[s], c));
    let p1 = mat_mul(l2, b, n, q);
    let p0 = mat_mul(l, b, n, q);
    let p2 = p0.update(r, row_axpy(p0[r], p0[s], c));
    assert forall|i: int| 0 <= i < l.len() implies #[trigger] p1[i] == p2[i] by {
        if i == r {
            assert forall|j: int| 0 <= j < q implies #[trigger] p1[i][j] == p2[i][j] by {
                lemma_dot_axpy(l[r], l[s], c, b, j, n);
                assert(l2[r] == row_axpy(l[r], l[s], c));
                lemma_mul_is_commutative(c, p0[s][j]);
            }
            assert(p1[i] =~= p2[i]);
        } else {
            assert(p1[i] =~= p2[i]);
        }
    }
    assert(p1 =~= p2);
}

/// Exchanging two rows of the left factor exchanges them in the product.
pub proof fn lemma_mul_swap(l: Seq<Seq<int>>, b: Seq<Seq<int>>, n: nat, q: nat, r: int, s: int)
    requires
        0 <= r < l.len(),
        0 <= s < l.len(),
    ensures
        mat_mul(swap_rows(l, r, s), b, n, q) == swap_rows(mat_mul(l, b, n, q), r, s),
{
    let p1 = mat_mul(swap_rows(l, r, s), b, n, q);
    let p2 = swap_rows(mat_mul(l, b, n, q), r, s);
    assert forall|i: int| 0 <= i < l.len() implies #[trigger] p1[i] == p2[i] by {
        assert(p1[i] =~= p2[i]);
    }
    assert(p1 =~= p2);
}

// ---------------------------------------------------------------------------
// Associativity and transposition
// ---------------------------------------------------------------------------

/// `sum_k (sum_{j<jn} x[j] b[j][k]) c[k][l] == sum_{j<jn} x[j] (sum_k b[j][k] c[k][l])`
proof fn lemma_dot_assoc(
    x: Seq<int>,
    b: Seq<Seq<int>>,
    c: Seq<Seq<int>>,
    l: int,
    jn: nat,
    m: nat,
)
    requires
        jn <= x.len(),
        jn <= b.len(),
        forall|j: int| 0 <= j < jn ==> #[trigger] b[j].len() == m,
    ensures
        dot(Seq::new(m, |k: int| dot(x, b, k, jn)), c, l, m) == dot_assoc_rhs(x, b, c, l, jn, m),
    decreases jn,
{
    if jn == 0 {
        let z = Seq::new(m, |k: int| dot(x, b, k, 0));
        lemma_dot_zero(z, c, l, m);
    } else {
        let j0 = (jn - 1) as nat;
        lemma_dot_assoc(x, b, c, l, j0, m);
        let prev = Seq::new(m, |k: int| dot(x, b, k, j0));
        let cur = Seq::new(m, |k: int| dot(x, b, k, jn));
        assert(cur =~= row_axpy(prev, b[j0 as int], x[j0 as int]));
        lemma_dot_axpy(prev, b[j0 as int], x[j0 as int], c, l, m);
    }
}

pub open spec fn dot_assoc_rhs(
    x: Seq<int>,
    b: Seq<Seq<int>>,
    c: Seq<Seq<int>>,
    l: int,
    jn: nat,
    m: nat,
) -> int
    decreases jn,
{
    if jn == 0 {
        0
    } else {
        dot_assoc_rhs(x, b, c, l, (jn - 1) as nat, m) + x[jn - 1] * dot(b[jn - 1], c, l, m)
    }
}

proof fn lemma_dot_zero(z: Seq<int>, c: Seq<Seq<int>>, l: int, k: nat)
    requires
        k <= z.len(),
        forall|t: int| 0 <= t < k ==> #[trigger] z[t] == 0,
    ensures
        dot(z, c, l, k) == 0,
    decreases k,
{
    if k > 0 {
        lemma_dot_zero(z, c, l, (k - 1) as nat);
        assert(z[k - 1] * c[k - 1][l] == 0) by {
            lemma_mul_basics(c[k - 1][l]);
        }
    }
}

proof fn lemma_dot_rhs_is_dot(
    x: Seq<int>,
    b: Seq<Seq<int>>,
    c: Seq<Seq<int>>,
    l: int,
    jn: nat,
    m: nat,
    q: nat,
)
    requires
        0 <= l < q,
        jn <= b.len(),
    ensures
        dot_assoc_rhs(x, b, c, l, jn, m) == dot(x, mat_mul(b, c, m, q), l, jn),
    decreases jn,
{
    if jn > 0 {
        lemma_dot_rhs_is_dot(x, b, c, l, (jn - 1) as nat, m, q);
    }
}

/// Matrix multiplication is associative.
pub proof fn lemma_mul_assoc(
    a: Seq<Seq<int>>,
    b: Seq<Seq<int>>,
    c: Seq<Seq<int>>,
    r: nat,
    n: nat,
    m: nat,
    q: nat,
)
    requires
        is_rect(a, r, n),
        is_rect(b, n, m),
        is_rect(c, m, q),
    ensures
        mat_mul(mat_mul(a, b, n, m), c, m, q) == mat_mul(a, mat_mul(b, c, m, q), n, q),
{
    let lhs = mat_mul(mat_mul(a, b, n, m), c, m, q);
    let rhs = mat_mul(a, mat_mul(b, c, m, q), n, q);
    assert forall|i: int| 0 <= i < r implies #[trigger] lhs[i] == rhs[i] by {
        assert forall|l: int| 0 <= l < q implies #[trigger] lhs[i][l] == rhs[i][l] by {
            lemma_dot_assoc(a[i], b, c, l, n, m);
            assert(mat_mul(a, b, n, m)[i] =~= Seq::new(m, |k: int| dot(a[i], b, k, n)));
            lemma_dot_rhs_is_dot(a[i], b, c, l, n, m, q);
        }
        assert(lhs[i] =~= rhs[i]);
    }
    assert(lhs =~= rhs);
}

proof fn lemma_dot_transpose(
    x: Seq<Seq<int>>,
    y: Seq<Seq<int>>,
    r: nat,
    n: nat,
    p: nat,
    i: int,
    j: int,
    k: nat,
)
    requires
        is_rect(x, r, n),
        is_rect(y, n, p),
        0 <= i < r,
        0 <= j < p,
        k <= n,
    ensures
        dot(transpose(y, n, p)[j], transpose(x, r, n), i, k) == dot(x[i], y, j, k),
    decreases k,
{
    if k > 0 {
        lemma_dot_transpose(x, y, r, n, p, i, j, (k - 1) as nat);
        lemma_mul_is_commutative(y[k - 1][j], x[i][k - 1]);
    }
}

/// `(x y)^T == y^T x^T`
pub proof fn lemma_transpose_mul(x: Seq<Seq<int>>, y: Seq<Seq<int>>, r: nat, n: nat, p: nat)
    requires
        is_rect(x, r, n),
        is_rect(y, n, p),
    ensures
        transpose(mat_mul(x, y, n, p), r, p) == mat_mul(
            transpose(y, n, p),
            transpose(x, r, n),
            n,
            r,
        ),
{
    let lhs = transpose(mat_mul(x, y, n, p), r, p);
    let rhs = mat_mul(transpose(y, n, p), transpose(x, r, n), n, r);
    assert forall|j: int| 0 <= j < p implies #[trigger] lhs[j] == rhs[j] by {
        assert forall|i: int| 0 <= i < r implies #[trigger] lhs[j][i] == rhs[j][i] by {
            lemma_dot_transpose(x, y, r, n, p, i, j, n);
        }
        assert(lhs[j] =~= rhs[j]);
    }
    assert(lhs =~= rhs);
}

pub proof fn lemma_transpose_rect(c: Seq<Seq<int>>, r: nat, k: nat)
    ensures
        is_rect(transpose(c, r, k), k, r),
{
}

pub proof fn lemma_transpose_cong(a: Seq<Seq<int>>, b: Seq<Seq<int>>, r: nat, k: nat, p: int)
    requires
        mat_cong(a, b, r, k, p),
    ensures
        mat_cong(transpose(a, r, k), transpose(b, r, k), k, r, p),
{
    assert forall|j: int, i: int| 0 <= j < k && 0 <= i < r implies cong(
        #[trigger] transpose(a, r, k)[j][i],
        transpose(b, r, k)[j][i],
        p,
    ) by {
        assert(cong(a[i][j], b[i][j], p));
    }
}

pub proof fn lemma_transpose_identity(n: nat)
    ensures
        transpose(identity(n), n, n) == identity(n),
{
    assert forall|i: int| 0 <= i < n implies #[trigger] transpose(identity(n), n, n)[i]
        == identity(n)[i] by {
        assert(transpose(identity(n), n, n)[i] =~= identity(n)[i]);
    }
    assert(transpose(identity(n), n, n) =~= identity(n));
}

// ---------------------------------------------------------------------------
// Left inverses under row operations
// ---------------------------------------------------------------------------

/// Column `i` of every row of `g` replaced by `g[a][i] - c * g[a][j]`.
pub open spec fn col_axpy(g: Seq<Seq<int>>, i: int, j: int, c: int) -> Seq<Seq<int>> {
    Seq::new(g.len(), |a: int| g[a].update(i, g[a][i] - c * g[a][j]))
}

/// Columns `i` and `r` of every row of `g` exchanged.
pub open spec fn col_swap(g: Seq<Seq<int>>, i: int, r: int) -> Seq<Seq<int>> {
    Seq::new(g.len(), |a: int| g[a].update(i, g[a][r]).update(r, g[a][i]))
}

proof fn lemma_dot_update_left(x: Seq<int>, m: Seq<Seq<int>>, b: int, t: int, v: int, k: nat)
    requires
        0 <= t < x.len(),
        k <= x.len(),
    ensures
        dot(x.update(t, v), m, b, k) == dot(x, m, b, k) + (if t < k {
            (v - x[t]) * m[t][b]
        } else {
            0
        }),
    decreases k,
{
    if k > 0 {
        lemma_dot_update_left(x, m, b, t, v, (k - 1) as nat);
        if t == k - 1 {
            assert(v * m[t][b] == x[t] * m[t][b] + (v - x[t]) * m[t][b]) by (nonlinear_arith);
        }
    }
}

proof fn lemma_dot_update_right(
    x: Seq<int>,
    m: Seq<Seq<int>>,
    b: int,
    t: int,
    row: Seq<int>,
    k: nat,
)
    requires
        0 <= t < m.len(),
        k <= m.len(),
    ensures
        dot(x, m.update(t, row), b, k) == dot(x, m, b, k) + (if t < k {
            x[t] * (row[b] - m[t][b])
        } else {
            0
        }),
    decreases k,
{
    if k > 0 {
        lemma_dot_update_right(x, m, b, t, row, (k - 1) as nat);
        if t == k - 1 {
            assert(x[t] * row[b] == x[t] * m[t][b] + x[t] * (row[b] - m[t][b])) by (
            nonlinear_arith);
        }
    }
}

/// A column operation on `g` undoes the matching row operation on `l`.
pub proof fn lemma_left_inverse_axpy(
    g: Seq<Seq<int>>,
    l: Seq<Seq<int>>,
    n: nat,
    j: int,
    i: int,
    c: int,
)
    requires
        is_rect(g, n, n),
        is_rect(l, n, n),
        0 <= i < n,
        0 <= j < n,
        i != j,
    ensures
        mat_mul(col_axpy(g, i, j, c), l.update(j, row_axpy(l[j], l[i], c)), n, n) == mat_mul(
            g,
            l,
            n,
            n,
        ),
        is_rect(col_axpy(g, i, j, c), n, n),
{
    let g2 = col_axpy(g, i, j, c);
    let l2 = l.update(j, row_axpy(l[j], l[i], c));
    let lhs = mat_mul(g2, l2, n, n);
    let rhs = mat_mul(g, l, n, n);
    assert forall|a: int| 0 <= a < n implies #[trigger] lhs[a] == rhs[a] by {
        assert forall|b: int| 0 <= b < n implies #[trigger] lhs[a][b] == rhs[a][b] by {
            let x = g[a];
            let v = x[i] - c * x[j];
            assert(g2[a] == x.update(i, v));
            lemma_dot_update_left(x, l2, b, i, v, n);
            lemma_dot_update_right(x, l, b, j, row_axpy(l[j], l[i], c), n);
            assert(l2[i] == l[i]);
            assert(row_axpy(l[j], l[i], c)[b] == l[j][b] + l[i][b] * c);
            assert((v - x[i]) * l[i][b] + x[j] * (l[i][b] * c) == 0) by (nonlinear_arith)
                requires
                    v == x[i] - c * x[j],
            ;
        }
        assert(lhs[a] =~= rhs[a]);
    }
    assert(lhs =~= rhs);
}

/// A column exchange on `g` undoes the matching row exchange on `l`.
pub proof fn lemma_left_inverse_swap(g: Seq<Seq<int>>, l: Seq<Seq<int>>, n: nat, i: int, r: int)
    requires
        is_rect(g, n, n),
        is_rect(l, n, n),
        0 <= i < n,
        0 <= r < n,
    ensures
        mat_mul(col_swap(g, i, r), swap_rows(l, i, r), n, n) == mat_mul(g, l, n, n),
        is_rect(col_swap(g, i, r), n, n),
{
    let g2 = col_swap(g, i, r);
    let l2 = swap_rows(l, i, r);
    let lhs = mat_mul(g2, l2, n, n);
    let rhs = mat_mul(g, l, n, n);
    if i == r {
        assert forall|a: int| 0 <= a < n implies #[trigger] g2[a] == g[a] by {
            assert(g2[a] =~= g[a]);
        }
        assert(g2 =~= g);
        assert(l2 =~= l);
    } else {
        assert forall|a: int| 0 <= a < n implies #[trigger] lhs[a] == rhs[a] by {
            assert forall|b: int| 0 <= b < n implies #[trigger] lhs[a][b] == rhs[a][b] by {
                let x = g[a];
                let y = x.update(i, x[r]);
                assert(g2[a] == y.update(r, x[i]));
                let m1 = l.update(i, l[r]);
                assert(l2 == m1.update(r, l[i]));
                lemma_dot_update_left(y, l2, b, r, x[i], n);
                lemma_dot_update_left(x, l2, b, i, x[r], n);
                lemma_dot_update_right(x, m1, b, r, l[i], n);
                lemma_dot_update_right(x, l, b, i, l[r], n);
                let li = l[i][b];
                let lr = l[r][b];
                let xi = x[i];
                let xr = x[r];
                assert(xi * (lr - li) + xr * (li - lr) + (xr - xi) * lr + (xi - xr) * li == 0)
                    by (nonlinear_arith);
            }
            assert(lhs[a] =~= rhs[a]);
        }
        assert(lhs =~= rhs);
    }
}

/// Congruence modulo 1 always holds.
pub proof fn lemma_mat_cong_one(a: Seq<Seq<int>>, b: Seq<Seq<int>>, r: nat, k: nat)
    requires
        is_rect(a, r, k),
        is_rect(b, r, k),
    ensures
        mat_cong(a, b, r, k, 1),
{
    assert forall|i: int, j: int| 0 <= i < r && 0 <= j < k implies cong(
        #[trigger] a[i][j],
        b[i][j],
        1,
    ) by {
        lemma_mod_bound(a[i][j], 1);
        lemma_mod_bound(b[i][j], 1);
    }
}

/// `gcd(a, n)` depends only on the residue of `a` modulo `n`.
pub proof fn lemma_gcd_mod(a: nat, n: nat)
    requires
        n > 0,
    ensures
        gcd(a, n) == gcd(a % n, n),
{
    lemma_mod_bound(a as int, n as int);
    lemma_mod_twice(a as int, n as int);
    assert(gcd(a % n, n) == gcd(n, (a % n) % n));
}


// ---------------------------------------------------------------------------
// Inverses from triangular factors
// ---------------------------------------------------------------------------

/// Transposing twice gives the matrix back.
pub proof fn lemma_transpose_twice(c: Seq<Seq<int>>, r: nat, k: nat)
    requires
        is_rect(c, r, k),
    ensures
        transpose(transpose(c, r, k), k, r) == c,
{
    let t = transpose(transpose(c, r, k), k, r);
    assert forall|i: int| 0 <= i < r implies #[trigger] t[i] == c[i] by {
        assert(t[i] =~= c[i]);
    }
    assert(t =~= c);
}

/// `d` has exact zeros off its diagonal.
pub open spec fn diagonal_exact(d: Seq<Seq<int>>, n: nat) -> bool {
    forall|i: int, j: int| 0 <= i < n && 0 <= j < n && i != j ==> #[trigger] d[i][j] == 0
}

proof fn lemma_dot_diag_row(d: Seq<Seq<int>>, m: Seq<Seq<int>>, n: nat, i: int, j: int, k: nat)
    requires
        diagonal_exact(d, n),
        0 <= i < n,
        k <= n,
    ensures
        dot(d[i], m, j, k) == if i < k { d[i][i] * m[i][j] } else { 0 },
    decreases k,
{
    if k > 0 {
        lemma_dot_diag_row(d, m, n, i, j, (k - 1) as nat);
        if k - 1 != i {
            assert(d[i][k - 1] == 0);
            lemma_mul_basics(m[k - 1][j]);
        }
    }
}

/// A diagonal left factor scales the rows of the right factor.
pub proof fn lemma_mul_diag_left(d: Seq<Seq<int>>, m: Seq<Seq<int>>, n: nat, q: nat)
    requires
        diagonal_exact(d, n),
        d.len() == n,
    ensures
        forall|i: int, j: int|
            0 <= i < n && 0 <= j < q ==> #[trigger] mat_mul(d, m, n, q)[i][j] == d[i][i] * m[i][j],
{
    assert forall|i: int, j: int| 0 <= i < n && 0 <= j < q implies #[trigger] mat_mul(
        d,
        m,
        n,
        q,
    )[i][j] == d[i][i] * m[i][j] by {
        lemma_dot_diag_row(d, m, n, i, j, n);
    }
}

/// `x` is congruent to `(d * x) * y` when `d * y` is congruent to 1.
pub proof fn lemma_scale_back(x: int, d: int, y: int, p: int)
    requires
        p > 0,
        (d * y) % p == 1int % p,
    ensures
        cong(d * (x * y), x, p),
{
    assert(d * (x * y) == (d * y) * x) by (nonlinear_arith);
    lemma_mul_mod_noop_left(d * y, x, p);
    lemma_mul_mod_noop_left(1, x, p);
    lemma_mul_basics(x);
}

/// If `l1 a == u` and, for `k = u^T`, `l2 k == dd` with `dd` diagonal, `g2` a left inverse
/// of `l2`, and the rows of `m` those of `l2` scaled by inverses of the diagonal of `dd`,
/// then `m^T l1` is a left inverse of `a` (all modulo `p`).
pub proof fn lemma_inverse_by_factors(
    a: Seq<Seq<int>>,
    u: Seq<Seq<int>>,
    l1: Seq<Seq<int>>,
    dd: Seq<Seq<int>>,
    l2: Seq<Seq<int>>,
    g2: Seq<Seq<int>>,
    m: Seq<Seq<int>>,
    ys: Seq<int>,
    g1: Seq<Seq<int>>,
    n: nat,
    p: int,
)
    requires
        p > 0,
        is_rect(a, n, n),
        is_rect(u, n, n),
        is_rect(l1, n, n),
        is_rect(g1, n, n),
        mat_cong(mat_mul(g1, l1, n, n), identity(n), n, n, p),
        is_rect(dd, n, n),
        is_rect(l2, n, n),
        is_rect(g2, n, n),
        is_rect(m, n, n),
        mat_cong(mat_mul(l1, a, n, n), u, n, n, p),
        mat_cong(mat_mul(l2, transpose(u, n, n), n, n), dd, n, n, p),
        mat_cong(mat_mul(g2, l2, n, n), identity(n), n, n, p),
        diagonal_exact(dd, n),
        ys.len() == n,
        forall|i: int| 0 <= i < n ==> (dd[i][i] * #[trigger] ys[i]) % p == 1int % p,
        forall|i: int| 0 <= i < n ==> #[trigger] m[i] == row_scale(l2[i], ys[i]),
    ensures
        mat_cong(mat_mul(mat_mul(transpose(m, n, n), l1, n, n), a, n, n), identity(n), n, n, p),
        mat_cong(mat_mul(a, mat_mul(transpose(m, n, n), l1, n, n), n, n), identity(n), n, n, p),
{
    let k = transpose(u, n, n);
    let t = transpose(m, n, n);
    let id = identity(n);
    lemma_transpose_rect(u, n, n);
    lemma_transpose_rect(m, n, n);
    assert(is_rect(id, n, n));
    // dd m == l2
    let dm = mat_mul(dd, m, n, n);
    lemma_mul_diag_left(dd, m, n, n);
    assert forall|i: int, j: int| 0 <= i < n && 0 <= j < n implies cong(
        #[trigger] dm[i][j],
        l2[i][j],
        p,
    ) by {
        assert(m[i][j] == l2[i][j] * ys[i]);
        lemma_scale_back(l2[i][j], dd[i][i], ys[i], p);
    }
    lemma_mul_rect(dd, m, n, n, n);
    assert(mat_cong(dm, l2, n, n, p));
    // k == g2 dd
    lemma_mat_cong_refl(g2, n, n, p);
    lemma_mat_cong_refl(k, n, n, p);
    lemma_mul_rect(l2, k, n, n, n);
    lemma_mul_cong(g2, g2, mat_mul(l2, k, n, n), dd, n, n, n, p);
    lemma_mul_assoc(g2, l2, k, n, n, n, n);
    lemma_mul_rect(g2, l2, n, n, n);
    lemma_mul_cong(mat_mul(g2, l2, n, n), id, k, k, n, n, n, p);
    lemma_mul_identity_left(k, n, n);
    lemma_mat_cong_sym(mat_mul(mat_mul(g2, l2, n, n), k, n, n), k, n, n, p);
    lemma_mat_cong_trans(k, mat_mul(g2, mat_mul(l2, k, n, n), n, n), mat_mul(g2, dd, n, n), n, n, p);
    // k m == g2 dd m == g2 l2 == id
    lemma_mul_rect(g2, dd, n, n, n);
    lemma_mat_cong_refl(m, n, n, p);
    lemma_mul_cong(k, mat_mul(g2, dd, n, n), m, m, n, n, n, p);
    lemma_mul_assoc(g2, dd, m, n, n, n, n);
    lemma_mul_cong(g2, g2, dm, l2, n, n, n, p);
    lemma_mat_cong_trans(mat_mul(k, m, n, n), mat_mul(g2, dm, n, n), mat_mul(g2, l2, n, n), n, n, p);
    lemma_mat_cong_trans(mat_mul(k, m, n, n), mat_mul(g2, l2, n, n), id, n, n, p);
    // t u == (k m)^T == id
    lemma_transpose_cong(mat_mul(k, m, n, n), id, n, n, p);
    lemma_transpose_identity(n);
    lemma_transpose_mul(k, m, n, n, n);
    lemma_transpose_twice(u, n, n);
    assert(mat_cong(mat_mul(t, u, n, n), id, n, n, p));
    // (t l1) a == t (l1 a) == t u == id
    lemma_mul_assoc(t, l1, a, n, n, n, n);
    lemma_mat_cong_refl(t, n, n, p);
    lemma_mul_rect(l1, a, n, n, n);
    lemma_mul_cong(t, t, mat_mul(l1, a, n, n), u, n, n, n, p);
    lemma_mat_cong_trans(mat_mul(t, mat_mul(l1, a, n, n), n, n), mat_mul(t, u, n, n), id, n, n, p);
    // right inverse: m k == id (the rows of m are those of l2 scaled by the inverses of dd)
    let mk = mat_mul(m, k, n, n);
    lemma_mul_rect(m, k, n, n, n);
    assert forall|i: int, j: int| 0 <= i < n && 0 <= j < n implies cong(
        #[trigger] mk[i][j],
        id[i][j],
        p,
    ) by {
        lemma_dot_scale(l2[i], ys[i], k, j, n);
        assert(mk[i][j] == ys[i] * mat_mul(l2, k, n, n)[i][j]);
        assert(cong(mat_mul(l2, k, n, n)[i][j], dd[i][j], p));
        lemma_mul_mod_noop_right(ys[i], mat_mul(l2, k, n, n)[i][j], p);
        lemma_mul_mod_noop_right(ys[i], dd[i][j], p);
        lemma_mul_is_commutative(ys[i], dd[i][j]);
        if i != j {
            assert(dd[i][j] == 0);
            lemma_mul_basics(ys[i]);
        }
    }
    // u t == (m k)^T == id
    lemma_transpose_cong(mk, id, n, n, p);
    lemma_transpose_mul(m, k, n, n, n);
    assert(mat_cong(mat_mul(u, t, n, n), id, n, n, p));
    // a == g1 u
    let la = mat_mul(l1, a, n, n);
    lemma_mat_cong_refl(g1, n, n, p);
    lemma_mul_cong(g1, g1, la, u, n, n, n, p);
    lemma_mul_assoc(g1, l1, a, n, n, n, n);
    lemma_mul_rect(g1, l1, n, n, n);
    lemma_mat_cong_refl(a, n, n, p);
    lemma_mul_cong(mat_mul(g1, l1, n, n), id, a, a, n, n, n, p);
    lemma_mul_identity_left(a, n, n);
    lemma_mat_cong_sym(mat_mul(mat_mul(g1, l1, n, n), a, n, n), a, n, n, p);
    lemma_mat_cong_trans(a, mat_mul(g1, la, n, n), mat_mul(g1, u, n, n), n, n, p);
    // a (t l1) == (g1 u)(t l1) == g1 ((u t) l1) == g1 l1 == id
    let tl = mat_mul(t, l1, n, n);
    lemma_mul_rect(t, l1, n, n, n);
    lemma_mat_cong_refl(tl, n, n, p);
    lemma_mul_rect(g1, u, n, n, n);
    lemma_mul_cong(a, mat_mul(g1, u, n, n), tl, tl, n, n, n, p);
    lemma_mul_assoc(g1, u, tl, n, n, n, n);
    lemma_mul_assoc(u, t, l1, n, n, n, n);
    lemma_mul_rect(u, t, n, n, n);
    lemma_mat_cong_refl(l1, n, n, p);
    lemma_mul_cong(mat_mul(u, t, n, n), id, l1, l1, n, n, n, p);
    lemma_mul_identity_left(l1, n, n);
    lemma_mul_rect(mat_mul(u, t, n, n), l1, n, n, n);
    lemma_mul_cong(g1, g1, mat_mul(mat_mul(u, t, n, n), l1, n, n), l1, n, n, n, p);
    lemma_mat_cong_trans(
        mat_mul(a, tl, n, n),
        mat_mul(mat_mul(g1, u, n, n), tl, n, n),
        mat_mul(g1, l1, n, n),
        n,
        n,
        p,
    );
    lemma_mat_cong_trans(mat_mul(a, tl, n, n), mat_mul(g1, l1, n, n), id, n, n, p);
}

// ---------------------------------------------------------------------------
// Row operations on congruent matrices
// ---------------------------------------------------------------------------

/// The same row operation on congruent matrices gives congruent matrices.
pub proof fn lemma_cong_row_axpy(
    x: Seq<Seq<int>>,
    y: Seq<Seq<int>>,
    r: nat,
    k: nat,
    j: int,
    s: int,
    c: int,
    p: int,
)
    requires
        p > 0,
        mat_cong(x, y, r, k, p),
        0 <= j < r,
        0 <= s < r,
    ensures
        mat_cong(
            x.update(j, row_axpy(x[j], x[s], c)),
            y.update(j, row_axpy(y[j], y[s], c)),
            r,
            k,
            p,
        ),
{
    let x2 = x.update(j, row_axpy(x[j], x[s], c));
    let y2 = y.update(j, row_axpy(y[j], y[s], c));
    assert forall|a: int, b: int| 0 <= a < r && 0 <= b < k implies cong(
        #[trigger] x2[a][b],
        y2[a][b],
        p,
    ) by {
        if a == j {
            assert(cong(x[j][b], y[j][b], p));
            assert(cong(x[s][b], y[s][b], p));
            lemma_mul_mod_noop_left(x[s][b], c, p);
            lemma_mul_mod_noop_left(y[s][b], c, p);
            lemma_add_mod_noop(x[j][b], x[s][b] * c, p);
            lemma_add_mod_noop(y[j][b], y[s][b] * c, p);
        } else {
            assert(cong(x[a][b], y[a][b], p));
        }
    }
}

/// Exchanging the same two rows of congruent matrices keeps them congruent.
pub proof fn lemma_cong_swap(x: Seq<Seq<int>>, y: Seq<Seq<int>>, r: nat, k: nat, i: int, s: int, p: int)
    requires
        mat_cong(x, y, r, k, p),
        0 <= i < r,
        0 <= s < r,
    ensures
        mat_cong(swap_rows(x, i, s), swap_rows(y, i, s), r, k, p),
{
    let x2 = swap_rows(x, i, s);
    let y2 = swap_rows(y, i, s);
    assert forall|a: int, b: int| 0 <= a < r && 0 <= b < k implies cong(
        #[trigger] x2[a][b],
        y2[a][b],
        p,
    ) by {
        if a == s {
            assert(cong(x[i][b], y[i][b], p));
        } else if a == i {
            assert(cong(x[s][b], y[s][b], p));
        } else {
            assert(cong(x[a][b], y[a][b], p));
        }
    }
}

// ---------------------------------------------------------------------------
// Inverses
// ---------------------------------------------------------------------------

/// For a square matrix, a left inverse (such as a pseudoinverse) and a right inverse (such
/// as an inverse) agree modulo `p`: the pseudoinverse of an invertible square matrix is its
/// inverse.
pub proof fn law_left_and_right_inverse_agree(
    a: Seq<Seq<int>>,
    n: nat,
    left: Seq<Seq<int>>,
    right: Seq<Seq<int>>,
    p: int,
)
    requires
        p > 0,
        is_rect(a, n, n),
        is_rect(left, n, n),
        is_rect(right, n, n),
        mat_cong(mat_mul(left, a, n, n), identity(n), n, n, p),
        mat_cong(mat_mul(a, right, n, n), identity(n), n, n, p),
    ensures
        mat_cong(left, right, n, n, p),
{
    let id = identity(n);
    // left == left id ~ left (a right) == (left a) right ~ id right == right
    lemma_mul_identity_right(left, n, n);
    lemma_mul_identity_left(right, n, n);
    lemma_mat_cong_refl(left, n, n, p);
    lemma_mat_cong_refl(right, n, n, p);
    lemma_mat_cong_sym(mat_mul(a, right, n, n), id, n, n, p);
    lemma_mul_cong(left, left, id, mat_mul(a, right, n, n), n, n, n, p);
    lemma_mul_assoc(left, a, right, n, n, n, n);
    lemma_mul_cong(mat_mul(left, a, n, n), id, right, right, n, n, n, p);
    lemma_mat_cong_trans(left, mat_mul(left, mat_mul(a, right, n, n), n, n), right, n, n, p);
}

/// A left inverse `b` of the `r` x `c` matrix `a` satisfies the first Moore-Penrose
/// condition: `a b a` is congruent to `a` modulo `p`.
pub proof fn law_left_inverse_reproduces(a: Seq<Seq<int>>, r: nat, c: nat, b: Seq<Seq<int>>, p: int)
    requires
        p > 0,
        is_rect(a, r, c),
        is_rect(b, c, r),
        mat_cong(mat_mul(b, a, r, c), identity(c), c, c, p),
    ensures
        mat_cong(mat_mul(mat_mul(a, b, c, r), a, r, c), a, r, c, p),
{
    lemma_mul_assoc(a, b, a, r, c, r, c);
    lemma_mat_cong_refl(a, r, c, p);
    lemma_mul_cong(a, a, mat_mul(b, a, r, c), identity(c), r, c, c, p);
    lemma_mul_identity_right(a, r, c);
}

/// Congruent matrices normalize to the same matrix.
pub proof fn lemma_mod_cells_of_cong(x: Seq<Seq<int>>, y: Seq<Seq<int>>, r: nat, k: nat, p: int)
    requires
        p > 0,
        mat_cong(x, y, r, k, p),
    ensures
        mod_cells(x, p) == mod_cells(y, p),
{
    assert forall|i: int| 0 <= i < r implies #[trigger] mod_cells(x, p)[i] == mod_cells(y, p)[i] by {
        assert forall|j: int| 0 <= j < k implies #[trigger] mod_cells(x, p)[i][j] == mod_cells(y, p)[i][j] by {
            lemma_norm(x[i][j], p);
            lemma_norm(y[i][j], p);
            assert(cong(x[i][j], y[i][j], p));
        }
        assert(mod_cells(x, p)[i] =~= mod_cells(y, p)[i]);
    }
    assert(mod_cells(x, p) =~= mod_cells(y, p));
}

} // verus!
