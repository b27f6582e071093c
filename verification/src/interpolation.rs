//! Birkhoff interpolation: parameters `(x, rank)` of the shares of a hierarchical
//! threshold scheme, the linear system they define, and the coefficients that recover the
//! secret or add a share.

use vstd::prelude::*;
use vstd::arithmetic::div_mod::*;
use vstd::arithmetic::mul::*;
use vstd::arithmetic::power::pow;
use vstd::string::*;
use crate::integer::{Integer, Sign, abs, floor_mod, trunc_div, be_nat, be_bytes, decimal_string,
    lemma_be_bytes_value,
    big_mul, big_div, big_add, big_mod_floor, big_lt, big_eq, lemma_floor_mod_residue,
    lemma_floor_mod_cong, lemma_cong_mul, lemma_cong_add};
use crate::linalg::{norm, lemma_norm};
use crate::error::{Error, matrix_error, ec_point_error};
use crate::ec_point::{ECPoint, all_on_curve, combination, coordinate_fits, curve_point, uncompressed_encoding};
use crate::point::{decoded_point, is_identity};
use crate::matrix::{Matrix, row_vals, grid_vals, is_pseudoinverse, rank_witness, rank_input, elimination_stuck, is_prime, invertible_matrix, lemma_rank_deficient_not_invertible, lemma_full_rank_invertible};
use crate::linalg::{mat_mul, transpose, identity, is_rect, mat_cong, mod_cells};
use crate::linalg::lemma_trunc_nonneg;

verus! {

// ---------------------------------------------------------------------------
// Combinatorics
// ---------------------------------------------------------------------------

/// `n!`
pub open spec fn factorial(n: nat) -> nat
    decreases n,
{
    if n == 0 {
        1
    } else {
        n * factorial((n - 1) as nat)
    }
}

/// The falling factorial `n (n - 1) ... (n - k + 1)`, zero when `k > n`.
pub open spec fn falling(n: nat, k: nat) -> int
    decreases k,
{
    if k == 0 {
        1
    } else {
        falling(n, (k - 1) as nat) * (n - (k - 1))
    }
}

/// The binomial coefficient, by Pascal's rule.
pub open spec fn binom(n: nat, k: nat) -> nat
    decreases n,
{
    if k == 0 {
        1
    } else if n == 0 {
        0
    } else {
        binom((n - 1) as nat, (k - 1) as nat) + binom((n - 1) as nat, k)
    }
}

proof fn lemma_factorial_pos(n: nat)
    ensures
        factorial(n) >= 1,
    decreases n,
{
    if n > 0 {
        lemma_factorial_pos((n - 1) as nat);
        let f = factorial((n - 1) as nat);
        assert(n * f >= 1) by (nonlinear_arith)
            requires
                n >= 1,
                f >= 1,
        ;
    }
}

proof fn lemma_falling_zero(n: nat, k: nat)
    requires
        k > n,
    ensures
        falling(n, k) == 0,
    decreases k,
{
    let f = falling(n, (k - 1) as nat);
    if k > n + 1 {
        lemma_falling_zero(n, (k - 1) as nat);
        assert(f * (n - (k - 1)) == 0) by (nonlinear_arith)
            requires
                f == 0,
        ;
    } else {
        assert(f * (n - (k - 1)) == 0) by (nonlinear_arith)
            requires
                n - (k - 1) == 0,
        ;
    }
}

proof fn lemma_falling_top(n: nat, k: nat)
    requires
        n >= 1,
        k >= 1,
    ensures
        falling(n, k) == n * falling((n - 1) as nat, (k - 1) as nat),
    decreases k,
{
    if k > 1 {
        lemma_falling_top(n, (k - 1) as nat);
        let f = falling((n - 1) as nat, (k - 2) as nat);
        assert(falling(n, k) == (n * f) * (n - (k - 1)));
        assert(falling((n - 1) as nat, (k - 1) as nat) == f * ((n - 1) - (k - 2)));
        assert((n * f) * (n - (k - 1)) == n * (f * ((n - 1) - (k - 2)))) by (nonlinear_arith);
    } else {
        assert(falling(n, 1) == falling(n, 0) * (n - 0));
        assert(falling(n, 0) == 1);
        assert(falling((n - 1) as nat, 0) == 1);
    }
}

/// `binom(n, k) * k! == n (n - 1) ... (n - k + 1)`
pub proof fn lemma_binom_falling(n: nat, k: nat)
    ensures
        binom(n, k) * factorial(k) == falling(n, k),
    decreases n,
{
    if k == 0 {
        assert(binom(n, 0) == 1);
        assert(factorial(0) == 1);
        assert(falling(n, 0) == 1);
    } else if n == 0 {
        lemma_falling_zero(0, k);
        assert(binom(n, k) == 0);
        assert(binom(n, k) * factorial(k) == 0);
    } else {
        let n1 = (n - 1) as nat;
        let k1 = (k - 1) as nat;
        lemma_binom_falling(n1, k1);
        lemma_binom_falling(n1, k);
        lemma_falling_top(n, k);
        let a = binom(n1, k1) as int;
        let b = binom(n1, k) as int;
        let f = falling(n1, k1);
        let fk1 = factorial(k1) as int;
        let fk = factorial(k) as int;
        assert(fk == k * fk1);
        assert(a * fk1 == f);
        assert(b * fk == falling(n1, k));
        assert(falling(n1, k) == f * (n1 - k1));
        assert(falling(n, k) == n * f);
        assert(binom(n, k) == a + b);
        assert((a + b) * fk == n * f) by (nonlinear_arith)
            requires
                fk == k * fk1,
                a * fk1 == f,
                b * fk == f * (n1 - k1),
                n1 == n - 1,
                k1 == k - 1,
        ;
        assert(binom(n, k) * factorial(k) == (a + b) * fk);
    }
}

proof fn lemma_binom_over(n: nat, k: nat)
    requires
        k > n,
    ensures
        binom(n, k) == 0,
    decreases n,
{
    if n > 0 {
        lemma_binom_over((n - 1) as nat, (k - 1) as nat);
        lemma_binom_over((n - 1) as nat, k);
    }
}

proof fn lemma_binom_all(n: nat)
    ensures
        binom(n, n) == 1,
    decreases n,
{
    if n > 0 {
        lemma_binom_all((n - 1) as nat);
        lemma_binom_over((n - 1) as nat, n);
    }
}

/// `binom(n, i + 1) * (i + 1) == binom(n, i) * (n - i)`
proof fn lemma_binom_step(n: nat, i: nat)
    ensures
        binom(n, i + 1) * (i + 1) == binom(n, i) * (n - i),
{
    lemma_binom_falling(n, i + 1);
    lemma_binom_falling(n, i);
    lemma_factorial_pos(i);
    let c1 = binom(n, i + 1) as int;
    let c0 = binom(n, i) as int;
    let fi = factorial(i) as int;
    assert(factorial(i + 1) == (i + 1) * factorial(i));
    assert(falling(n, i + 1) == falling(n, i) * (n - i));
    assert((c1 * (i + 1)) * fi == (c0 * (n - i)) * fi) by (nonlinear_arith)
        requires
            c1 * ((i + 1) * fi) == (c0 * fi) * (n - i),
    ;
    assert(c1 * (i + 1) == c0 * (n - i)) by (nonlinear_arith)
        requires
            (c1 * (i + 1)) * fi == (c0 * (n - i)) * fi,
            fi >= 1,
    ;
}

/// The binomial coefficient `n` choose `k`, zero when `k < 0` or `k > n`.
pub fn binomial(n: i64, k: i64) -> (r: Integer)
    ensures
        r@ == if k < 0 || k > n {
            0
        } else {
            binom(n as nat, k as nat) as int
        },
{
    if k < 0 || k > n {
        return Integer::zero();
    }
    if k == 0 || k == n {
        proof {
            if k == n {
                lemma_binom_all(n as nat);
            }
        }
        return Integer::one();
    }
    let mut res = Integer::one();
    let mut i: i64 = 0;
    while i < k
        invariant
            0 < k < n,
            0 <= i <= k,
            res@ == binom(n as nat, i as nat),
        decreases k - i,
    {
        let factor = Integer::from_i64(n - i);
        res = big_mul(&res, &factor);
        let divisor = Integer::from_i64(i + 1);
        proof {
            lemma_binom_step(n as nat, i as nat);
            assert(res@ == binom(n as nat, (i + 1) as nat) * (i + 1));
            lemma_trunc_nonneg(res@, i + 1);
            lemma_div_by_multiple(binom(n as nat, (i + 1) as nat) as int, i + 1);
        }
        res = big_div(&res, &divisor);
        i = i + 1;
    }
    res
}

/// `1 <= falling(n, j) <= falling(n, k)` for `j <= k <= n`.
proof fn lemma_falling_mono(n: nat, j: nat, k: nat)
    requires
        j <= k <= n,
    ensures
        1 <= falling(n, j) <= falling(n, k),
    decreases k,
{
    if k > 0 && j < k {
        lemma_falling_mono(n, j, (k - 1) as nat);
        lemma_falling_mono(n, (k - 1) as nat, (k - 1) as nat);
        let f = falling(n, (k - 1) as nat);
        assert(f <= f * (n - (k - 1))) by (nonlinear_arith)
            requires
                f >= 1,
                n - (k - 1) >= 1,
        ;
    } else if k > 0 {
        lemma_falling_mono(n, (k - 1) as nat, (k - 1) as nat);
        let f = falling(n, (k - 1) as nat);
        assert(1 <= f * (n - (k - 1))) by (nonlinear_arith)
            requires
                f >= 1,
                n - (k - 1) >= 1,
        ;
    }
}

/// `floor_mod(floor_mod(a, m) * b, m) == floor_mod(a * b, m)`
pub proof fn lemma_floor_mod_mul_left(a: int, b: int, m: int)
    requires
        m != 0,
    ensures
        floor_mod(floor_mod(a, m) * b, m) == floor_mod(a * b, m),
{
    let n = abs(m);
    lemma_floor_mod_residue(a, m);
    lemma_mul_mod_noop_left(floor_mod(a, m), b, n);
    lemma_mul_mod_noop_left(a, b, n);
    lemma_floor_mod_cong(floor_mod(a, m) * b, a * b, m);
}

// ---------------------------------------------------------------------------
// Birkhoff parameters
// ---------------------------------------------------------------------------

/// The coefficient of `x^degree` in the `rank`-th derivative of the linear equation of a
/// parameter: `degree! / (degree - rank)! * x^(degree - rank)` reduced modulo the field
/// order; 1 for the constant monomial of a rank 0 parameter.
pub open spec fn diff_coeff(x: int, rank: nat, degree: nat, p: int) -> int {
    if degree < rank {
        0
    } else if degree == 0 {
        1
    } else {
        floor_mod(pow(x, (degree - rank) as nat) * falling(degree, rank), p)
    }
}

/// What computing `diff_coeff(x, rank, degree, p)` needs: a non-zero field order and a
/// falling factorial that fits in 32 bits.
pub open spec fn diff_coeff_computable(rank: nat, degree: nat, p: int) -> bool {
    degree >= rank && degree > 0 ==> p != 0 && falling(degree, rank) <= u32::MAX
}

/// A Birkhoff parameter: an x-coordinate and the order of the derivative taken there.
pub struct BkParameter {
    x: Integer,
    rank: u32,
}

/// A serializable form of a [`BkParameter`].
pub struct BkParameterMessage {
    /// The x-coordinate as big-endian bytes of its magnitude.
    pub x: Vec<u8>,
    /// The rank/order of the derivative.
    pub rank: u32,
}

impl View for BkParameter {
    type V = (int, u32);

    closed spec fn view(&self) -> (int, u32) {
        (self.x@, self.rank)
    }
}

impl Clone for BkParameter {
    fn clone(&self) -> (r: Self)
        ensures
            r@ == self@,
    {
        BkParameter { x: self.x.clone(), rank: self.rank }
    }
}

impl BkParameter {
    /// Creates a new parameter with the given x-coordinate and rank.
    pub fn new(x: Integer, rank: u32) -> (r: BkParameter)
        ensures
            r@ == (x@, rank),
    {
        BkParameter { x, rank }
    }

    /// The x-coordinate.
    pub fn get_x(&self) -> (r: &Integer)
        ensures
            r@ == self@.0,
    {
        &self.x
    }

    /// The rank/order of the derivative.
    pub fn get_rank(&self) -> (r: u32)
        ensures
            r == self@.1,
    {
        self.rank
    }

    /// The coefficient of the monomial `x^degree` in the `rank`-th derivative, evaluated at
    /// this parameter's x-coordinate: for `x^5`, rank 2 and `x = 3` it is `5 * 4 * 3^3`.
    pub fn get_diff_monomial_coeff(&self, field_order: &Integer, degree: u32) -> (r: Integer)
        requires
            diff_coeff_computable(self@.1 as nat, degree as nat, field_order@),
        ensures
            r@ == diff_coeff(self@.0, self@.1 as nat, degree as nat, field_order@),
    {
        if degree < self.rank {
            return Integer::zero();
        }
        if degree == 0 {
            return Integer::one();
        }
        let mut temp_value: u32 = 1;
        let mut j: u32 = 0;
        while j < self.rank
            invariant
                j <= self.rank <= degree,
                falling(degree as nat, self.rank as nat) <= u32::MAX,
                temp_value == falling(degree as nat, j as nat),
            decreases self.rank - j,
        {
            proof {
                lemma_falling_mono(degree as nat, (j + 1) as nat, self.rank as nat);
            }
            temp_value = temp_value * (degree - j);
            j = j + 1;
        }
        let extra_value = Integer::from_u64(temp_value as u64);
        let power = Integer::from_u64((degree - self.rank) as u64);
        let result = self.x.modpow(&power, field_order);
        let product = big_mul(&result, &extra_value);
        let r = big_mod_floor(&product, field_order);
        proof {
            lemma_floor_mod_mul_left(
                pow(self.x@, (degree - self.rank) as nat),
                falling(degree as nat, self.rank as nat),
                field_order@,
            );
        }
        r
    }

    /// The coefficients of the parameter's linear equation for a polynomial of degree
    /// `degree_poly`: one per monomial `x^0 .. x^degree_poly`.
    pub fn get_linear_equation_coefficient(&self, field_order: &Integer, degree_poly: u32) -> (r:
        Vec<Integer>)
        requires
            degree_poly < u32::MAX,
            forall|i: nat| i <= degree_poly ==> diff_coeff_computable(self@.1 as nat, i, field_order@),
        ensures
            r@.len() == degree_poly + 1,
            forall|i: int| 0 <= i <= degree_poly ==> #[trigger] r@[i]@ == diff_coeff(
                self@.0,
                self@.1 as nat,
                i as nat,
                field_order@,
            ),
    {
        let mut result: Vec<Integer> = Vec::new();
        let mut i: u32 = 0;
        while i <= degree_poly
            invariant
                degree_poly < u32::MAX,
                forall|d: nat| d <= degree_poly ==> diff_coeff_computable(self@.1 as nat, d, field_order@),
                i <= degree_poly + 1,
                result@.len() == i,
                forall|k: int| 0 <= k < i ==> #[trigger] result@[k]@ == diff_coeff(
                    self@.0,
                    self@.1 as nat,
                    k as nat,
                    field_order@,
                ),
            decreases degree_poly + 1 - i,
        {
            assert(diff_coeff_computable(self@.1 as nat, i as nat, field_order@));
            result.push(self.get_diff_monomial_coeff(field_order, i));
            i = i + 1;
        }
        result
    }

    /// Converts this parameter into its serializable form.
    pub fn to_message(&self) -> (r: BkParameterMessage)
        ensures
            r.x@ == be_bytes(abs(self@.0) as nat),
            r.rank == self@.1,
    {
        let (_, bytes) = self.x.to_bytes_be();
        BkParameterMessage { x: bytes, rank: self.rank }
    }

    /// The text `(x, rank) = (<x>, <rank>)`, both in decimal.
    pub fn to_string(&self) -> (r: String)
        ensures
            r@ == "(x, rank) = ("@ + decimal_string(self@.0) + ", "@ + decimal_string(self@.1 as int)
                + ")"@,
    {
        let mut s = "(x, rank) = (".to_owned();
        let xs = self.x.to_decimal();
        s.append(xs.as_str());
        s.append(", ");
        let rs = Integer::from_u64(self.rank as u64).to_decimal();
        s.append(rs.as_str());
        s.append(")");
        s
    }
}

/// A parameter whose x-coordinate lies strictly between 0 and the field order comes back
/// unchanged from its message: `to_bk(to_message(bk)) == Ok(bk)`.
pub proof fn law_message_round_trip(x: int, field_order: int)
    requires
        0 < x < field_order,
    ensures
        be_nat(be_bytes(abs(x) as nat)) == x,
        0 < be_nat(be_bytes(abs(x) as nat)) < field_order,
{
    lemma_be_bytes_value(abs(x) as nat);
}

impl BkParameterMessage {
    /// Converts this message back into a parameter; fails with `InvalidFieldOrder` unless the
    /// x-coordinate lies strictly between 0 and the field order.
    pub fn to_bk(&self, field_order: &Integer) -> (res: Result<BkParameter, Error>)
        ensures
            (be_nat(self.x@) <= 0 || be_nat(self.x@) >= field_order@) ==> res matches Err(
                Error::InvalidFieldOrder,
            ),
            (0 < be_nat(self.x@) < field_order@) ==> (res matches Ok(bk) && bk@ == (
                be_nat(self.x@),
                self.rank,
            )),
    {
        let x = Integer::from_bytes_be(Sign::Plus, self.x.as_slice());
        let zero = Integer::zero();
        if !big_lt(&zero, &x) || !big_lt(&x, field_order) {
            return Err(Error::InvalidFieldOrder);
        }
        Ok(BkParameter::new(x, self.rank))
    }
}

/// The coefficient row of parameter `(x, rank)` for a polynomial of degree `t - 1`.
pub open spec fn coeff_row(x: int, rank: nat, t: nat, p: int) -> Seq<int> {
    Seq::new(t, |i: int| diff_coeff(x, rank, i as nat, p))
}

/// The matrix of the Birkhoff linear system: one row per parameter, one column per
/// monomial `x^0 .. x^(t-1)`.
pub open spec fn coeff_matrix(params: Seq<(int, u32)>, t: nat, p: int) -> Seq<Seq<int>> {
    Seq::new(params.len(), |k: int| coeff_row(params[k].0, params[k].1 as nat, t, p))
}

/// The Gram matrix `A^T A` of the linear system `A` of `params` (`params.len()` x `t`).
pub open spec fn system_gram(params: Seq<(int, u32)>, t: nat, p: int) -> Seq<Seq<int>> {
    mat_mul(
        transpose(coeff_matrix(params, t, p), params.len(), t),
        coeff_matrix(params, t, p),
        params.len(),
        t,
    )
}

/// Every coefficient of a parameter of rank `rank` can be computed for threshold `t`.
pub open spec fn rank_computable(rank: nat, t: nat, p: int) -> bool {
    forall|i: nat| i < t ==> #[trigger] diff_coeff_computable(rank, i, p)
}

/// Every entry of the coefficient matrix can be computed.
pub open spec fn params_computable(params: Seq<(int, u32)>, t: nat, p: int) -> bool {
    forall|k: int| 0 <= k < params.len() ==> #[trigger] rank_computable(params[k].1 as nat, t, p)
}

/// `n! == falling(n, k) * (n - k)!` for `k <= n`.
proof fn lemma_falling_factorial(n: nat, k: nat)
    requires
        k <= n,
    ensures
        falling(n, k) * factorial((n - k) as nat) == factorial(n),
    decreases k,
{
    if k > 0 {
        lemma_falling_factorial(n, (k - 1) as nat);
        let m = (n - k) as nat;
        assert(factorial(m + 1) == (m + 1) * factorial(m));
        assert(falling(n, k) == falling(n, (k - 1) as nat) * (n - (k - 1)));
        let f = falling(n, (k - 1) as nat);
        let g = factorial(m) as int;
        assert((f * (m + 1)) * g == f * ((m + 1) * g)) by (nonlinear_arith);
    }
}

/// `C(i, i - d) * d! == falling(i, d)` for `d <= i`: the coefficient that the `d`-th
/// derivative gives to `x^i`.
pub proof fn lemma_binom_complement(i: nat, d: nat)
    requires
        d <= i,
    ensures
        binom(i, (i - d) as nat) * factorial(d) == falling(i, d),
{
    let e = (i - d) as nat;
    lemma_binom_falling(i, e);
    lemma_falling_factorial(i, e);
    lemma_falling_factorial(i, d);
    lemma_factorial_pos(e);
    assert((i - e) as nat == d);
    let c = binom(i, e) as int;
    let fd = factorial(d) as int;
    let fe = factorial(e) as int;
    let fi = factorial(i) as int;
    let fl = falling(i, d);
    // c * fe == falling(i, e); falling(i, e) * fd == fi; fl * fe == fi
    assert((c * fd) * fe == fl * fe) by (nonlinear_arith)
        requires
            c * fe == falling(i, e),
            falling(i, e) * fd == fi,
            fl * fe == fi,
    ;
    assert(c * fd == fl) by (nonlinear_arith)
        requires
            (c * fd) * fe == fl * fe,
            fe >= 1,
    ;
}

/// The weight of `x^i`'s coefficient in the `d`-th derivative at `x`:
/// `i! / (i - d)! * x^(i - d)`, zero for `i < d`.
pub open spec fn deriv_weight(d: nat, x: int, i: nat) -> int {
    if i >= d {
        falling(i, d) * pow(x, (i - d) as nat)
    } else {
        0
    }
}

/// The `d`-th derivative at `x` of the polynomial `sum_{i < hi} a[i] x^i`:
/// `sum_{d <= i < hi} i! / (i - d)! * x^(i - d) * a[i]`.
pub open spec fn deriv_sum(a: Seq<int>, d: nat, x: int, hi: nat) -> int
    decreases hi,
{
    if hi == 0 {
        0
    } else {
        deriv_sum(a, d, x, (hi - 1) as nat) + deriv_weight(d, x, (hi - 1) as nat) * a[hi - 1]
    }
}

/// Column `k` of a matrix with `rows` rows.
pub open spec fn column_of(b: Seq<Seq<int>>, k: int, rows: nat) -> Seq<int> {
    Seq::new(rows, |i: int| b[i][k])
}

/// `sum_{nr <= i < hi} C(i, i - nr) * nr! * x^(i - nr) * b[i][col]`, the sum as the add-share
/// coefficient accumulates it.
spec fn add_share_sum(b: Seq<Seq<int>>, col: int, nr: nat, x: int, hi: nat) -> int
    decreases hi,
{
    if hi <= nr {
        0
    } else {
        let i = (hi - 1) as nat;
        add_share_sum(b, col, nr, x, i) + binom(i, (i - nr) as nat) * factorial(nr) * pow(
            x,
            (i - nr) as nat,
        ) * b[i as int][col]
    }
}

/// The add-share sum is the derivative of the polynomial whose coefficients are column
/// `col` of `b`.
proof fn lemma_add_share_sum_is_derivative(b: Seq<Seq<int>>, col: int, nr: nat, x: int, hi: nat, rows: nat)
    requires
        hi <= rows,
    ensures
        add_share_sum(b, col, nr, x, hi) == deriv_sum(column_of(b, col, rows), nr, x, hi),
    decreases hi,
{
    if hi > 0 {
        let i = (hi - 1) as nat;
        lemma_add_share_sum_is_derivative(b, col, nr, x, i, rows);
        let c = column_of(b, col, rows);
        assert(c[i as int] == b[i as int][col]);
        if i >= nr {
            lemma_binom_complement(i, nr);
            let bc = binom(i, (i - nr) as nat) as int;
            let f = factorial(nr) as int;
            let pw = pow(x, (i - nr) as nat);
            let v = b[i as int][col];
            assert(bc * f * pw * v == (falling(i, nr) * pw) * v) by (nonlinear_arith)
                requires
                    bc * f == falling(i, nr),
            ;
        } else {
            assert(deriv_weight(nr, x, i) == 0);
            assert(hi <= nr);
            lemma_mul_basics(c[i as int]);
        }
    }
}

/// `a` comes before or together with `b`: by rank, then by x-coordinate.
pub open spec fn key_le(a: (int, u32), b: (int, u32)) -> bool {
    a.1 < b.1 || (a.1 == b.1 && a.0 <= b.0)
}

/// The parameters are ordered by rank, then by x-coordinate.
pub open spec fn sorted_by_rank_x(s: Seq<(int, u32)>) -> bool {
    forall|i: int, j: int| 0 <= i < j < s.len() ==> key_le(#[trigger] s[i], #[trigger] s[j])
}

/// `srt` holds the parameters of `s`, ordered by rank, then by x-coordinate.
pub open spec fn sorted_perm(srt: Seq<(int, u32)>, s: Seq<(int, u32)>) -> bool {
    srt.to_multiset() == s.to_multiset() && sorted_by_rank_x(srt)
}

/// Parameter `k` has the rank of the first earlier parameter with its x-coordinate.
pub open spec fn repeats_first(s: Seq<(int, u32)>, k: int) -> bool {
    exists|j: int|
        0 <= j < k && #[trigger] s[j].0 == s[k].0 && s[j].1 == s[k].1 && forall|i: int|
            0 <= i < j ==> #[trigger] s[i].0 != s[k].0
}

/// Some parameter repeats the rank of the first earlier parameter with its x-coordinate.
pub open spec fn has_repeated_bk(s: Seq<(int, u32)>) -> bool {
    exists|k: int| 0 <= k < s.len() && #[trigger] repeats_first(s, k)
}

/// A parameter equal, in x-coordinate and rank, to the first parameter with its
/// x-coordinate, at any later position (the last one too), is a repetition.
pub proof fn law_repeated_bk(s: Seq<(int, u32)>, j: int, k: int)
    requires
        0 <= j < k < s.len(),
        s[j] == s[k],
        forall|i: int| 0 <= i < j ==> #[trigger] s[i].0 != s[j].0,
    ensures
        has_repeated_bk(s),
{
    lemma_repeats_first_at(s, j, k);
    assert(repeats_first(s, k));
}

/// Parameter `k` repeats the first parameter `j` with its x-coordinate.
proof fn lemma_repeats_first_at(s: Seq<(int, u32)>, j: int, k: int)
    requires
        0 <= j < k < s.len(),
        s[j].0 == s[k].0,
        s[j].1 == s[k].1,
        forall|i: int| 0 <= i < j ==> #[trigger] s[i].0 != s[k].0,
    ensures
        repeats_first(s, k),
{
}

/// A repetition is a parameter equal, in x-coordinate and rank, to the first parameter with
/// its x-coordinate: a parameter whose x-coordinate first came with another rank is none.
pub proof fn law_repetition_is_of_the_first(s: Seq<(int, u32)>)
    requires
        has_repeated_bk(s),
    ensures
        exists|j: int, k: int|
            0 <= j < k < s.len() && #[trigger] s[j] == #[trigger] s[k] && forall|i: int|
                0 <= i < j ==> #[trigger] s[i].0 != s[j].0,
{
    let k = choose|k: int| 0 <= k < s.len() && #[trigger] repeats_first(s, k);
    let j = choose|j: int|
        0 <= j < k && #[trigger] s[j].0 == s[k].0 && s[j].1 == s[k].1 && forall|i: int|
            0 <= i < j ==> #[trigger] s[i].0 != s[k].0;
    assert(s[j] == s[k]);
    assert forall|i: int| 0 <= i < j implies #[trigger] s[i].0 != s[j].0 by {
        assert(s[i].0 != s[k].0);
    }
}

/// `c` is a strictly increasing sequence of `k` indices below `n`.
pub open spec fn is_combination(c: Seq<usize>, n: nat, k: nat) -> bool {
    &&& c.len() == k
    &&& forall|i: int| 0 <= i < c.len() ==> #[trigger] c[i] < n
    &&& forall|i: int, j: int| 0 <= i < j < c.len() ==> c[i] < c[j]
}

/// The parameters of `s` at the indices `c`.
pub open spec fn select(s: Seq<(int, u32)>, c: Seq<usize>) -> Seq<(int, u32)> {
    Seq::new(c.len(), |i: int| s[c[i] as int])
}

/// The linear system of the parameters of `srt` at the indices `c` has, as computed, a
/// rank below `t`.
pub open spec fn combination_rank_below(srt: Seq<(int, u32)>, c: Seq<usize>, t: nat, p: int) -> bool {
    exists|r: nat| r < t && #[trigger] rank_witness(coeff_matrix(select(srt, c), t, p), t, t, r, p)
}

/// The linear system of the parameters of `srt` at the indices `c` has, as computed, a
/// rank of at least `t`.
pub open spec fn combination_rank_reaches(srt: Seq<(int, u32)>, c: Seq<usize>, t: nat, p: int) -> bool {
    exists|r: nat| r >= t && #[trigger] rank_witness(coeff_matrix(select(srt, c), t, p), t, t, r, p)
}

/// The views of a sequence of parameters.
pub open spec fn bk_views(v: Seq<BkParameter>) -> Seq<(int, u32)> {
    v.map_values(|b: BkParameter| b@)
}

/// `itertools::Itertools::combinations` on the indices `0..n`: each `k`-element combination
/// of them, as a strictly increasing sequence, and nothing else.
#[verifier::external_body]
fn index_combinations(n: usize, k: usize) -> (r: Vec<Vec<usize>>)
    ensures
        forall|i: int| 0 <= i < r@.len() ==> is_combination(#[trigger] r@[i]@, n as nat, k as nat),
        forall|c: Seq<usize>|
            #[trigger] is_combination(c, n as nat, k as nat) ==> exists|i: int|
                0 <= i < r@.len() && #[trigger] r@[i]@ == c,
{
    itertools::Itertools::combinations(0..n, k).collect()
}

/// Whether `a` comes before or together with `b`.
fn bk_key_le(a: &BkParameter, b: &BkParameter) -> (r: bool)
    ensures
        r == key_le(a@, b@),
{
    a.rank < b.rank || (a.rank == b.rank && !big_lt(&b.x, &a.x))
}

/// Where `e` goes in the sorted `r`: after every parameter that comes before or with it.
fn insertion_point(r: &Vec<BkParameter>, e: &BkParameter) -> (pos: usize)
    requires
        sorted_by_rank_x(bk_views(r@)),
    ensures
        pos <= r@.len(),
        forall|q: int| 0 <= q < pos ==> key_le(#[trigger] bk_views(r@)[q], e@),
        forall|q: int| pos <= q < r@.len() ==> key_le(e@, #[trigger] bk_views(r@)[q]),
{
    let mut pos: usize = 0;
    while pos < r.len()
        invariant
            pos <= r@.len(),
            sorted_by_rank_x(bk_views(r@)),
            forall|q: int| 0 <= q < pos ==> key_le(#[trigger] bk_views(r@)[q], e@),
        decreases r@.len() - pos,
    {
        if !bk_key_le(&r[pos], e) {
            proof {
                assert forall|q: int| pos <= q < r@.len() implies key_le(e@, #[trigger] bk_views(r@)[q]) by {
                    if q > pos {
                        assert(key_le(bk_views(r@)[pos as int], bk_views(r@)[q]));
                    }
                }
            }
            return pos;
        }
        pos = pos + 1;
    }
    pos
}

/// The parameters ordered by rank, then by x-coordinate.
fn sort_by_rank_then_x(v: &Vec<BkParameter>) -> (r: Vec<BkParameter>)
    ensures
        sorted_perm(bk_views(r@), bk_views(v@)),
{
    let mut r: Vec<BkParameter> = Vec::new();
    let mut k: usize = 0;
    proof {
        assert(bk_views(r@) =~= bk_views(v@.take(0)));
    }
    while k < v.len()
        invariant
            k <= v@.len(),
            bk_views(r@).to_multiset() == bk_views(v@.take(k as int)).to_multiset(),
            sorted_by_rank_x(bk_views(r@)),
        decreases v@.len() - k,
    {
        let e = v[k].clone();
        let pos = insertion_point(&r, &e);
        let ghost old_views = bk_views(r@);
        r.insert(pos, e);
        proof {
            broadcast use vstd::seq_lib::to_multiset_insert, vstd::seq_lib::to_multiset_build;
            assert(bk_views(r@) =~= old_views.insert(pos as int, e@));
            assert(bk_views(v@.take(k + 1)) =~= bk_views(v@.take(k as int)).push(v@[k as int]@));
            assert forall|i: int, j: int| 0 <= i < j < bk_views(r@).len() implies key_le(
                #[trigger] bk_views(r@)[i],
                #[trigger] bk_views(r@)[j],
            ) by {
                let s2 = bk_views(r@);
                if j < pos {
                    assert(s2[i] == old_views[i] && s2[j] == old_views[j]);
                } else if j == pos {
                    assert(s2[i] == old_views[i]);
                } else if i == pos {
                    assert(s2[j] == old_views[j - 1]);
                } else if i < pos {
                    assert(s2[i] == old_views[i] && s2[j] == old_views[j - 1]);
                    assert(key_le(old_views[i], e@));
                    assert(key_le(e@, old_views[j - 1]));
                } else {
                    assert(s2[i] == old_views[i - 1] && s2[j] == old_views[j - 1]);
                }
            }
        }
        k = k + 1;
    }
    proof {
        assert(v@.take(v@.len() as int) =~= v@);
    }
    r
}

/// A collection of Birkhoff parameters.
pub struct BkParameters(Vec<BkParameter>);

impl View for BkParameters {
    type V = Seq<(int, u32)>;

    closed spec fn view(&self) -> Seq<(int, u32)> {
        bk_views(self.0@)
    }
}

impl BkParameters {
    /// Creates a collection from a vector of parameters.
    pub fn new(params: Vec<BkParameter>) -> (r: BkParameters)
        ensures
            r@ == bk_views(params@),
    {
        BkParameters(params)
    }

    /// The number of parameters.
    pub fn len(&self) -> (r: usize)
        ensures
            r == self@.len(),
    {
        self.0.len()
    }

    /// Whether the collection holds no parameter.
    pub fn is_empty(&self) -> (r: bool)
        ensures
            r == (self@.len() == 0),
    {
        self.0.len() == 0
    }

    /// The parameter at `index`, if there is one.
    pub fn get(&self, index: usize) -> (r: Option<&BkParameter>)
        ensures
            index < self@.len() ==> (r matches Some(b) && b@ == self@[index as int]),
            index >= self@.len() ==> r is None,
    {
        if index < self.0.len() {
            Some(&self.0[index])
        } else {
            None
        }
    }

    /// Index of the first parameter equal to `own_bk`, or `NoExistBk`.
    pub fn get_index_of_bk(&self, own_bk: &BkParameter) -> (res: Result<usize, Error>)
        ensures
            res matches Ok(i) ==> i < self@.len() && self@[i as int] == own_bk@ && forall|j: int|
                0 <= j < i ==> #[trigger] self@[j] != own_bk@,
            res is Err ==> (res matches Err(Error::NoExistBk) && forall|j: int|
                0 <= j < self@.len() ==> #[trigger] self@[j] != own_bk@),
    {
        let mut i: usize = 0;
        while i < self.0.len()
            invariant
                i <= self@.len(),
                self@.len() == self.0@.len(),
                forall|j: int| 0 <= j < i ==> #[trigger] self@[j] != own_bk@,
            decreases self.0@.len() - i,
        {
            let bk = &self.0[i];
            if big_eq(bk.get_x(), own_bk.get_x()) && bk.get_rank() == own_bk.get_rank() {
                return Ok(i);
            }
            i = i + 1;
        }
        Err(Error::NoExistBk)
    }

    /// The matrix of the Birkhoff linear system for threshold `t`; fails with
    /// `"Empty matrix"` when there is no parameter.
    pub fn get_linear_equation_coefficient_matrix(&self, threshold: u32, field_order: &Integer) -> (res:
        Result<Matrix, Error>)
        requires
            threshold >= 1,
            params_computable(self@, threshold as nat, field_order@),
        ensures
            self@.len() == 0 ==> res is Err && matrix_error(res->Err_0, "Empty matrix"@),
            self@.len() > 0 ==> (res matches Ok(m) && m.wf() && m.order() == field_order@
                && m.nrows() == self@.len() && m.ncols() == threshold && m.cells() == coeff_matrix(
                self@,
                threshold as nat,
                field_order@,
            )),
    {
        let lens = self.len();
        let mut result: Vec<Vec<Integer>> = Vec::new();
        let degree = threshold - 1;
        let mut i: usize = 0;
        while i < lens
            invariant
                lens == self@.len(),
                threshold >= 1,
                degree == threshold - 1,
                params_computable(self@, threshold as nat, field_order@),
                i <= lens,
                result@.len() == i,
                forall|k: int| 0 <= k < i ==> #[trigger] result@[k]@.len() == threshold,
                forall|k: int| 0 <= k < i ==> #[trigger] row_vals(result@[k]@) == coeff_row(
                    self@[k].0,
                    self@[k].1 as nat,
                    threshold as nat,
                    field_order@,
                ),
            decreases lens - i,
        {
            if let Some(bk) = self.get(i) {
                proof {
                    assert forall|d: nat| d <= degree implies diff_coeff_computable(
                        bk@.1 as nat,
                        d,
                        field_order@,
                    ) by {
                        assert(rank_computable(self@[i as int].1 as nat, threshold as nat, field_order@));
                        assert(diff_coeff_computable(self@[i as int].1 as nat, d, field_order@));
                    }
                }
                let row = bk.get_linear_equation_coefficient(field_order, degree);
                proof {
                    assert(row_vals(row@) =~= coeff_row(
                        self@[i as int].0,
                        self@[i as int].1 as nat,
                        threshold as nat,
                        field_order@,
                    ));
                }
                result.push(row);
            }
            i = i + 1;
        }
        proof {
            assert(grid_vals(result@) =~= coeff_matrix(self@, threshold as nat, field_order@));
            if lens > 0 {
                assert forall|k: int| 0 <= k < result@.len() implies #[trigger] result@[k]@.len()
                    == result@[0]@.len() by {}
            }
            reveal_strlit("Empty matrix");
        }
        Matrix::new(field_order.clone(), result)
    }

    fn ensure_rank_and_order(&self, threshold: u32, field_order: &Integer) -> (res: Result<(), Error>)
        ensures
            field_order@ <= 2 ==> res matches Err(Error::InvalidFieldOrder),
            field_order@ > 2 && (self@.len() as u32) < threshold ==> res matches Err(
                Error::EqualOrLargerThreshold,
            ),
            field_order@ > 2 && (self@.len() as u32) >= threshold ==> res is Ok,
    {
        let two = Integer::from_u64(2);
        if !big_lt(&two, field_order) {
            return Err(Error::InvalidFieldOrder);
        }
        if (self.len() as u32) < threshold {
            return Err(Error::EqualOrLargerThreshold);
        }
        Ok(())
    }

    fn compute_bk_coefficient_internal(&self, threshold: u32, field_order: &Integer) -> (res: Result<
        Vec<Integer>,
        Error,
    >)
        requires
            threshold >= 1,
            self@.len() > 0,
            field_order@ != 0,
            params_computable(self@, threshold as nat, field_order@),
        ensures
            res matches Ok(v) ==> exists|b: Seq<Seq<int>>|
                is_pseudoinverse(
                    coeff_matrix(self@, threshold as nat, field_order@),
                    self@.len(),
                    threshold as nat,
                    field_order@,
                    b,
                ) && row_vals(v@) == b[0],
            res is Err ==> matrix_error(res->Err_0, "not invertible matrix"@) || matrix_error(
                res->Err_0,
                "Not invertible element"@,
            ),
            res is Err ==> elimination_stuck(
                system_gram(self@, threshold as nat, field_order@),
                threshold as nat,
                field_order@,
            ) || !is_prime(abs(field_order@)),
            is_prime(abs(field_order@)) && invertible_matrix(
                system_gram(self@, threshold as nat, field_order@),
                threshold as nat,
                field_order@,
            ) ==> res is Ok,
            field_order@ > 0 ==> (res matches Ok(v) ==> forall|b: Seq<Seq<int>>|
                is_pseudoinverse(
                    coeff_matrix(self@, threshold as nat, field_order@),
                    self@.len(),
                    threshold as nat,
                    field_order@,
                    b,
                ) ==> row_vals(v@) == b[0]),
    {
        let birkhoff_matrix = self.get_linear_equation_coefficient_matrix(threshold, field_order)?;
        let result = birkhoff_matrix.pseudoinverse()?;
        let row = result.get_row(0)?;
        proof {
            result.lemma_shape();
        }
        Ok(row)
    }

    /// Computes the Birkhoff coefficients: the first row of the pseudoinverse of the
    /// linear system's matrix. Fails when the field order is at most 2, when there are fewer
    /// parameters than the threshold, or when the system cannot be inverted.
    pub fn compute_bk_coefficient(&self, threshold: u32, field_order: &Integer) -> (res: Result<
        Vec<Integer>,
        Error,
    >)
        requires
            field_order@ > 2 && (self@.len() as u32) >= threshold ==> threshold >= 1
                && params_computable(self@, threshold as nat, field_order@),
        ensures
            field_order@ <= 2 ==> res matches Err(Error::InvalidFieldOrder),
            field_order@ > 2 && (self@.len() as u32) < threshold ==> res matches Err(
                Error::EqualOrLargerThreshold,
            ),
            res matches Ok(v) ==> exists|b: Seq<Seq<int>>|
                is_pseudoinverse(
                    coeff_matrix(self@, threshold as nat, field_order@),
                    self@.len(),
                    threshold as nat,
                    field_order@,
                    b,
                ) && row_vals(v@) == b[0],
            field_order@ > 2 && (self@.len() as u32) >= threshold && res is Err ==> matrix_error(
                res->Err_0,
                "not invertible matrix"@,
            ) || matrix_error(res->Err_0, "Not invertible element"@),
            field_order@ > 2 && (self@.len() as u32) >= threshold && res is Err ==> elimination_stuck(
                system_gram(self@, threshold as nat, field_order@),
                threshold as nat,
                field_order@,
            ) || !is_prime(field_order@),
            field_order@ > 2 && (self@.len() as u32) >= threshold && is_prime(field_order@)
                && invertible_matrix(
                system_gram(self@, threshold as nat, field_order@),
                threshold as nat,
                field_order@,
            ) ==> res is Ok,
            res matches Ok(v) ==> forall|b: Seq<Seq<int>>|
                is_pseudoinverse(
                    coeff_matrix(self@, threshold as nat, field_order@),
                    self@.len(),
                    threshold as nat,
                    field_order@,
                    b,
                ) ==> row_vals(v@) == b[0],
    {
        self.ensure_rank_and_order(threshold, field_order)?;
        proof {
            if self@.len() == 0 {
                assert((self@.len() as u32) == 0);
            }
        }
        self.compute_bk_coefficient_internal(threshold, field_order)
    }

    /// Index of the first parameter with the x-coordinate of parameter `k` (`k` itself when
    /// no earlier one has it).
    fn first_same_x(&self, k: usize) -> (j: usize)
        requires
            k < self@.len(),
        ensures
            j <= k,
            forall|i: int| 0 <= i < j ==> #[trigger] self@[i].0 != self@[k as int].0,
            j < k ==> self@[j as int].0 == self@[k as int].0,
    {
        let mut j: usize = 0;
        while j < k
            invariant
                j <= k,
                k < self@.len(),
                self@.len() == self.0@.len(),
                forall|i: int| 0 <= i < j ==> #[trigger] self@[i].0 != self@[k as int].0,
            decreases k - j,
        {
            if big_eq(self.0[j].get_x(), self.0[k].get_x()) {
                return j;
            }
            j = j + 1;
        }
        j
    }

    /// Checks that some `threshold` of the parameters can recover the secret: after the
    /// checks of the field order and the number of parameters, no parameter may repeat the
    /// rank of the first earlier one with its x-coordinate; then, over the parameters ordered
    /// by rank and x-coordinate, some combination of `threshold` of them must give a linear
    /// system of full rank.
    pub fn check_valid(&self, threshold: u32, _field_order: &Integer) -> (res: Result<(), Error>)
        requires
            _field_order@ > 2 && (self@.len() as u32) >= threshold && !has_repeated_bk(self@)
                ==> threshold >= 1 && params_computable(self@, threshold as nat, _field_order@),
        ensures
            _field_order@ <= 2 ==> res matches Err(Error::InvalidFieldOrder),
            _field_order@ > 2 && (self@.len() as u32) < threshold ==> res matches Err(
                Error::EqualOrLargerThreshold,
            ),
            _field_order@ > 2 && (self@.len() as u32) >= threshold && has_repeated_bk(self@) ==> res matches Err(
                Error::InvalidBks,
            ),
            _field_order@ > 2 && (self@.len() as u32) >= threshold && (exists|j: int, k: int|
                0 <= j < k < self@.len() && #[trigger] self@[j] == #[trigger] self@[k] && forall|i: int|
                    0 <= i < j ==> #[trigger] self@[i].0 != self@[j].0) ==> res matches Err(Error::InvalidBks),
            res matches Err(Error::InvalidBks) ==> exists|j: int, k: int|
                0 <= j < k < self@.len() && #[trigger] self@[j] == #[trigger] self@[k] && forall|i: int|
                    0 <= i < j ==> #[trigger] self@[i].0 != self@[j].0,
            _field_order@ > 2 && (self@.len() as u32) >= threshold && !has_repeated_bk(self@) ==> exists|srt: Seq<(int, u32)>|
                #[trigger] sorted_perm(srt, self@) && {
                    &&& res is Ok ==> exists|c: Seq<usize>|
                        #[trigger] is_combination(c, srt.len(), threshold as nat)
                            && combination_rank_reaches(srt, c, threshold as nat, _field_order@)
                    &&& res is Ok ==> exists|c: Seq<usize>|
                        #[trigger] is_combination(c, srt.len(), threshold as nat) && invertible_matrix(
                            coeff_matrix(select(srt, c), threshold as nat, _field_order@),
                            threshold as nat,
                            _field_order@,
                        )
                    &&& res matches Err(Error::NoValidBks) ==> forall|c: Seq<usize>|
                        #[trigger] is_combination(c, srt.len(), threshold as nat)
                            ==> combination_rank_below(srt, c, threshold as nat, _field_order@)
                    &&& res matches Err(Error::NoValidBks) ==> forall|c: Seq<usize>|
                        #[trigger] is_combination(c, srt.len(), threshold as nat)
                            ==> !invertible_matrix(
                            coeff_matrix(select(srt, c), threshold as nat, _field_order@),
                            threshold as nat,
                            _field_order@,
                        )
                    &&& (res is Err && !(res matches Err(Error::NoValidBks))) ==> matrix_error(
                        res->Err_0,
                        "Not invertible element"@,
                    )
                },
            _field_order@ > 2 && (self@.len() as u32) >= threshold && !has_repeated_bk(self@)
                && is_prime(_field_order@) ==> res is Ok || res matches Err(Error::NoValidBks),
    {
        self.ensure_rank_and_order(threshold, _field_order)?;
        let ghost p = _field_order@;
        let ghost t = threshold as nat;
        let n = self.0.len();
        let mut k: usize = 0;
        while k < n
            invariant
                n == self@.len(),
                self@.len() == self.0@.len(),
                _field_order@ > 2,
                (self@.len() as u32) >= threshold,
                k <= n,
                forall|q: int| 0 <= q < k ==> !#[trigger] repeats_first(self@, q),
            decreases n - k,
        {
            let j = self.first_same_x(k);
            if j < k && self.0[j].get_rank() == self.0[k].get_rank() {
                proof {
                    assert(self@[j as int].0 == self@[k as int].0);
                    assert(repeats_first(self@, k as int));
                    law_repetition_is_of_the_first(self@);
                }
                return Err(Error::InvalidBks);
            }
            proof {
                if repeats_first(self@, k as int) {
                    let w = choose|w: int|
                        0 <= w < k && #[trigger] self@[w].0 == self@[k as int].0 && self@[w].1
                            == self@[k as int].1 && forall|i: int|
                            0 <= i < w ==> #[trigger] self@[i].0 != self@[k as int].0;
                    if w < j {
                        assert(self@[w].0 != self@[k as int].0);
                    } else if j < w {
                        assert(self@[j as int].0 != self@[k as int].0);
                    }
                }
            }
            k = k + 1;
        }
        proof {
            assert(!has_repeated_bk(self@));
            if exists|j: int, k: int|
                0 <= j < k < self@.len() && #[trigger] self@[j] == #[trigger] self@[k] && forall|i: int|
                    0 <= i < j ==> #[trigger] self@[i].0 != self@[j].0 {
                let (j, k) = choose|j: int, k: int|
                    0 <= j < k < self@.len() && #[trigger] self@[j] == #[trigger] self@[k] && forall|i: int|
                        0 <= i < j ==> #[trigger] self@[i].0 != self@[j].0;
                law_repeated_bk(self@, j, k);
            }
        }
        let sorted_bks = sort_by_rank_then_x(&self.0);
        let ghost srt = bk_views(sorted_bks@);
        proof {
            broadcast use vstd::seq_lib::to_multiset_contains, vstd::seq_lib::to_multiset_len;
            assert(srt.len() == self@.len()) by {
                assert(srt.to_multiset().len() == self@.to_multiset().len());
            }
            assert forall|q: int| 0 <= q < srt.len() implies #[trigger] rank_computable(srt[q].1 as nat, t, p) by {
                assert(srt.to_multiset().count(srt[q]) > 0);
                assert(self@.contains(srt[q]));
                let w = choose|w: int| 0 <= w < self@.len() && self@[w] == srt[q];
                assert(rank_computable(self@[w].1 as nat, t, p));
            }
        }
        let combos = index_combinations(sorted_bks.len(), threshold as usize);
        let mut ci: usize = 0;
        while ci < combos.len()
            invariant
                p == _field_order@,
                p > 2,
                (self@.len() as u32) >= threshold,
                !has_repeated_bk(self@),
                !(exists|j: int, k: int|
                    0 <= j < k < self@.len() && #[trigger] self@[j] == #[trigger] self@[k] && forall|i: int|
                        0 <= i < j ==> #[trigger] self@[i].0 != self@[j].0),
                t == threshold,
                t >= 1,
                srt == bk_views(sorted_bks@),
                sorted_perm(srt, self@),
                forall|q: int| 0 <= q < srt.len() ==> #[trigger] rank_computable(srt[q].1 as nat, t, p),
                forall|i: int| 0 <= i < combos@.len() ==> is_combination(#[trigger] combos@[i]@, srt.len(), t),
                ci <= combos@.len(),
                forall|q: int| 0 <= q < ci ==> combination_rank_below(srt, #[trigger] combos@[q]@, t, p),
            decreases combos@.len() - ci,
        {
            let combination = &combos[ci];
            proof {
                assert(is_combination(combos@[ci as int]@, srt.len(), t));
            }
            let mut temp: Vec<BkParameter> = Vec::new();
            let mut q: usize = 0;
            while q < combination.len()
                invariant
                    srt == bk_views(sorted_bks@),
                    is_combination(combination@, srt.len(), t),
                    q <= combination@.len(),
                    bk_views(temp@) == select(srt, combination@).take(q as int),
                decreases combination@.len() - q,
            {
                let idx = combination[q];
                let ghost before = temp@;
                let item = sorted_bks[idx].clone();
                temp.push(item);
                proof {
                    assert(temp@ == before.push(item));
                    assert(item@ == srt[idx as int]);
                    assert(bk_views(temp@) =~= bk_views(before).push(item@));
                    assert(bk_views(temp@) =~= select(srt, combination@).take(q + 1));
                }
                q = q + 1;
            }
            proof {
                assert(select(srt, combination@).take(q as int) =~= select(srt, combination@));
            }
            let temp_bks = BkParameters(temp);
            proof {
                assert(temp_bks@ == select(srt, combination@));
                assert forall|w: int| 0 <= w < temp_bks@.len() implies #[trigger] rank_computable(
                    temp_bks@[w].1 as nat,
                    t,
                    p,
                ) by {
                    assert(temp_bks@[w] == srt[combination@[w] as int]);
                    assert(rank_computable(srt[combination@[w] as int].1 as nat, t, p));
                }
            }
            let birkhoff_matrix = temp_bks.get_linear_equation_coefficient_matrix(threshold, _field_order)?;
            let rank_birkhoff_matrix = birkhoff_matrix.get_matrix_rank(_field_order)?;
            proof {
                assert(birkhoff_matrix.cells() == coeff_matrix(select(srt, combination@), t, p));
                assert(birkhoff_matrix.nrows() == t);
                assert(birkhoff_matrix.ncols() == t);
                assert(rank_input(birkhoff_matrix.cells(), t, t) == birkhoff_matrix.cells());
                assert(rank_witness(
                    coeff_matrix(select(srt, combination@), t, p),
                    t,
                    t,
                    rank_birkhoff_matrix as nat,
                    p,
                ));
            }
            if rank_birkhoff_matrix >= threshold as u64 {
                proof {
                    assert(is_combination(combination@, srt.len(), t));
                    assert(combination_rank_reaches(srt, combination@, t, p));
                    let mc = coeff_matrix(select(srt, combination@), t, p);
                    assert(is_rect(mc, t, t));
                    lemma_full_rank_invertible(mc, t, p, rank_birkhoff_matrix as nat);
                }
                return Ok(());
            }
            proof {
                assert(combination@ == combos@[ci as int]@);
                assert(combination_rank_below(srt, combination@, t, p));
            }
            ci = ci + 1;
        }
        proof {
            assert forall|c: Seq<usize>| #[trigger] is_combination(c, srt.len(), t) implies combination_rank_below(
                srt,
                c,
                t,
                p,
            ) by {
                let w = choose|w: int| 0 <= w < combos@.len() && #[trigger] combos@[w]@ == c;
                assert(combination_rank_below(srt, combos@[w]@, t, p));
            }
            assert forall|c: Seq<usize>| #[trigger] is_combination(c, srt.len(), t) implies !invertible_matrix(
                coeff_matrix(select(srt, c), t, p),
                t,
                p,
            ) by {
                assert(combination_rank_below(srt, c, t, p));
                let r = choose|r: nat| r < t && #[trigger] rank_witness(coeff_matrix(select(srt, c), t, p), t, t, r, p);
                let mc = coeff_matrix(select(srt, c), t, p);
                assert(is_rect(mc, t, t));
                lemma_rank_deficient_not_invertible(mc, t, p, r);
            }
        }
        Err(Error::NoValidBks)
    }

    /// The coefficient that turns this party's share into a contribution to the share of a
    /// new party: with `b` the pseudoinverse of the linear system and `k` the index of
    /// `own_bk`, the `rank`-th derivative at the new party's `x` of the polynomial whose
    /// coefficients are column `k` of `b`, reduced by the field order. The sum accumulates
    /// `C(i, i - rank) * rank! * x^(i - rank)` as the weight of coefficient `i`.
    pub fn get_add_share_coefficient(
        &self,
        own_bk: &BkParameter,
        new_bk: &BkParameter,
        field_order: &Integer,
        threshold: u32,
    ) -> (res: Result<Integer, Error>)
        requires
            threshold >= 1,
            field_order@ != 0,
            params_computable(self@, threshold as nat, field_order@),
        ensures
            self@.len() == 0 ==> res is Err && matrix_error(res->Err_0, "Empty matrix"@),
            res is Err && self@.len() > 0 ==> matrix_error(res->Err_0, "not invertible matrix"@)
                || matrix_error(res->Err_0, "Not invertible element"@) || res matches Err(
                Error::NoExistBk,
            ),
            res is Err && self@.len() > 0 ==> elimination_stuck(
                system_gram(self@, threshold as nat, field_order@),
                threshold as nat,
                field_order@,
            ) || !is_prime(abs(field_order@)) || res matches Err(Error::NoExistBk),
            self@.len() > 0 && is_prime(abs(field_order@)) && invertible_matrix(
                system_gram(self@, threshold as nat, field_order@),
                threshold as nat,
                field_order@,
            ) && (exists|j: int| 0 <= j < self@.len() && #[trigger] self@[j] == own_bk@) ==> res is Ok,
            res matches Err(Error::NoExistBk) ==> forall|j: int|
                0 <= j < self@.len() ==> #[trigger] self@[j] != own_bk@,
            field_order@ > 0 ==> (res matches Ok(r) ==> forall|b: Seq<Seq<int>>, k: int|
                #![trigger is_pseudoinverse(coeff_matrix(self@, threshold as nat, field_order@), self@.len(), threshold as nat, field_order@, b), self@[k]]
                is_pseudoinverse(
                    coeff_matrix(self@, threshold as nat, field_order@),
                    self@.len(),
                    threshold as nat,
                    field_order@,
                    b,
                ) && 0 <= k < self@.len() && self@[k] == own_bk@ && (forall|j: int|
                    0 <= j < k ==> #[trigger] self@[j] != own_bk@) ==> r@ == floor_mod(
                    deriv_sum(
                        column_of(b, k, threshold as nat),
                        new_bk@.1 as nat,
                        new_bk@.0,
                        threshold as nat,
                    ),
                    field_order@,
                )),
            res matches Ok(r) ==> exists|b: Seq<Seq<int>>, k: int|
                #![trigger is_pseudoinverse(coeff_matrix(self@, threshold as nat, field_order@), self@.len(), threshold as nat, field_order@, b), self@[k]]
                {
                    &&& is_pseudoinverse(
                        coeff_matrix(self@, threshold as nat, field_order@),
                        self@.len(),
                        threshold as nat,
                        field_order@,
                        b,
                    )
                    &&& 0 <= k < self@.len()
                    &&& self@[k] == own_bk@
                    &&& forall|j: int| 0 <= j < k ==> #[trigger] self@[j] != own_bk@
                    &&& r@ == floor_mod(
                        deriv_sum(
                            column_of(b, k, threshold as nat),
                            new_bk@.1 as nat,
                            new_bk@.0,
                            threshold as nat,
                        ),
                        field_order@,
                    )
                },
    {
        let birkhoff_matrix = self.get_linear_equation_coefficient_matrix(threshold, field_order)?;
        let birkhoff_matrix = birkhoff_matrix.pseudoinverse()?;
        let own_index = self.get_index_of_bk(own_bk)?;
        let ghost p = field_order@;
        let ghost pa = abs(p);
        let ghost bc = birkhoff_matrix.cells();
        let ghost nr = new_bk@.1 as nat;
        let ghost xn = new_bk@.0;
        proof {
            birkhoff_matrix.lemma_shape();
        }
        let new_rank: u64 = new_bk.get_rank() as u64;
        let mut result = Integer::zero();
        let mut x_power = Integer::one();
        let mut new_rank_factorial = Integer::one();
        let mut f: u64 = 2;
        proof {
            assert(factorial(0) == 1);
            assert(factorial(1) == 1 * factorial(0));
        }
        while f <= new_rank
            invariant
                p == field_order@,
                p != 0,
                pa == abs(p),
                pa > 0,
                new_rank == nr,
                new_rank <= u32::MAX,
                2 <= f,
                f <= new_rank + 1 || f == 2,
                new_rank_factorial@ % pa == (factorial((f - 1) as nat) as int) % pa,
            decreases new_rank + 1 - f,
        {
            let fi = Integer::from_u64(f);
            let prod = big_mul(&new_rank_factorial, &fi);
            proof {
                lemma_floor_mod_residue(prod@, p);
                lemma_cong_mul(new_rank_factorial@, factorial((f - 1) as nat) as int, f as int, f as int, pa);
                assert(factorial(f as nat) == f * factorial((f - 1) as nat));
                lemma_mul_is_commutative(f as int, factorial((f - 1) as nat) as int);
            }
            new_rank_factorial = big_mod_floor(&prod, field_order);
            f = f + 1;
        }
        proof {
            if nr >= 2 {
                assert(f == new_rank + 1);
            } else {
                assert(factorial(0) == 1);
                assert(factorial(1) == 1 * factorial(0));
                assert(factorial(nr) == factorial((f - 1) as nat));
            }
        }
        let mut i: u64 = new_rank;
        let t64 = threshold as u64;
        proof {
            reveal(pow);
            assert(pow(xn, 0) == 1);
            lemma_small_mod(0, pa as nat);
            assert(floor_mod(0, p) == 0);
            assert(add_share_sum(bc, own_index as int, nr, xn, nr) == 0);
        }
        while i < t64
            invariant
                p == field_order@,
                p != 0,
                pa == abs(p),
                pa > 0,
                new_rank == nr,
                new_rank <= i,
                new_rank < t64 ==> i <= t64,
                new_rank >= t64 ==> i == new_rank,
                t64 == threshold,
                xn == new_bk@.0,
                birkhoff_matrix.wf(),
                birkhoff_matrix.order() == p,
                birkhoff_matrix.nrows() == threshold,
                birkhoff_matrix.ncols() == self@.len(),
                bc == birkhoff_matrix.cells(),
                own_index < self@.len(),
                new_rank_factorial@ % pa == (factorial(nr) as int) % pa,
                x_power@ % pa == pow(xn, (i - new_rank) as nat) % pa,
                result@ == floor_mod(add_share_sum(bc, own_index as int, nr, xn, i as nat), p),
            decreases t64 - i,
        {
            let bin = binomial(i as i64, (i - new_rank) as i64);
            let factorial_coe = big_mul(&bin, &new_rank_factorial);
            let temp_bki = birkhoff_matrix.get(i, own_index as u64);
            let fx = big_mul(&factorial_coe, &x_power);
            let fxb = big_mul(&fx, &temp_bki);
            let temp_result = big_mod_floor(&fxb, field_order);
            let sum = big_add(&result, &temp_result);
            let ghost ii = i as nat;
            let ghost term = binom(ii, (ii - nr) as nat) * factorial(nr) * pow(xn, (ii - nr) as nat)
                * bc[i as int][own_index as int];
            proof {
                lemma_norm(bc[i as int][own_index as int], p);
                let c = binom(ii, (ii - nr) as nat) as int;
                lemma_cong_mul(c, c, new_rank_factorial@, factorial(nr) as int, pa);
                lemma_cong_mul(factorial_coe@, c * factorial(nr), x_power@, pow(xn, (ii - nr) as nat), pa);
                lemma_cong_mul(
                    fx@,
                    c * factorial(nr) * pow(xn, (ii - nr) as nat),
                    temp_bki@,
                    bc[i as int][own_index as int],
                    pa,
                );
                lemma_floor_mod_residue(fxb@, p);
                let s_i = add_share_sum(bc, own_index as int, nr, xn, ii);
                lemma_floor_mod_residue(s_i, p);
                lemma_cong_add(result@, s_i, temp_result@, term, pa);
                assert(add_share_sum(bc, own_index as int, nr, xn, ii + 1) == s_i + term);
                lemma_floor_mod_cong(sum@, s_i + term, p);
            }
            result = big_mod_floor(&sum, field_order);
            let xp = big_mul(&x_power, new_bk.get_x());
            proof {
                lemma_floor_mod_residue(xp@, p);
                lemma_cong_mul(x_power@, pow(xn, (ii - nr) as nat), xn, xn, pa);
                assert(pow(xn, (ii + 1 - nr) as nat) == xn * pow(xn, (ii - nr) as nat)) by {
                    reveal(pow);
                }
                lemma_mul_is_commutative(xn, pow(xn, (ii - nr) as nat));
            }
            x_power = big_mod_floor(&xp, field_order);
            i = i + 1;
        }
        proof {
            let k = own_index as int;
            assert(self@[k] == own_bk@);
            assert(is_pseudoinverse(
                coeff_matrix(self@, threshold as nat, field_order@),
                self@.len(),
                threshold as nat,
                field_order@,
                bc,
            ));
            if new_rank >= t64 {
                assert(add_share_sum(bc, k, nr, xn, threshold as nat) == 0);
                assert(add_share_sum(bc, k, nr, xn, i as nat) == 0);
            }
            lemma_add_share_sum_is_derivative(bc, k, nr, xn, threshold as nat, threshold as nat);
            if p > 0 {
                assert forall|b2: Seq<Seq<int>>, k2: int|
                    #![trigger is_pseudoinverse(coeff_matrix(self@, threshold as nat, p), self@.len(), threshold as nat, p, b2), self@[k2]]
                    is_pseudoinverse(
                        coeff_matrix(self@, threshold as nat, p),
                        self@.len(),
                        threshold as nat,
                        p,
                        b2,
                    ) && 0 <= k2 < self@.len() && self@[k2] == own_bk@ && (forall|j: int|
                        0 <= j < k2 ==> #[trigger] self@[j] != own_bk@) implies result@ == floor_mod(
                        deriv_sum(column_of(b2, k2, threshold as nat), nr, xn, threshold as nat),
                        p,
                    ) by {
                    assert(b2 == bc);
                    if k2 < k {
                        assert(self@[k2] != own_bk@);
                    } else if k < k2 {
                        assert(self@[k] != own_bk@);
                    }
                }
            }
        }
        Ok(result)
    }

    /// Checks a public key against the share points: the Birkhoff coefficients for the order
    /// of the key's curve combine the points on secp256k1 into a point that must equal the
    /// key.
    pub fn validate_public_key(&self, sgs: &[ECPoint], threshold: u32, pubkey: &ECPoint) -> (res:
        Result<(), Error>)
        requires
            pubkey@.2 > 2 && (self@.len() as u32) >= threshold ==> threshold >= 1
                && params_computable(self@, threshold as nat, pubkey@.2),
        ensures
            pubkey@.2 <= 2 ==> res matches Err(Error::InvalidFieldOrder),
            pubkey@.2 > 2 && (self@.len() as u32) < threshold ==> res matches Err(
                Error::EqualOrLargerThreshold,
            ),
            res is Ok ==> pubkey@.2 > 2 && (self@.len() as u32) >= threshold && sgs@.len()
                == self@.len() && all_on_curve(sgs@) && exists|b: Seq<Seq<int>>|
                #[trigger] is_pseudoinverse(
                    coeff_matrix(self@, threshold as nat, pubkey@.2),
                    self@.len(),
                    threshold as nat,
                    pubkey@.2,
                    b,
                ) && !is_identity(combination(b[0], sgs@, sgs@.len() as int)) && curve_point(
                    pubkey@,
                ) == Some(combination(b[0], sgs@, sgs@.len() as int)),
            res matches Err(Error::InconsistentPubKey) ==> sgs@.len() == self@.len()
                && all_on_curve(sgs@) && exists|b: Seq<Seq<int>>, x: int, y: int|
                #[trigger] is_pseudoinverse(
                    coeff_matrix(self@, threshold as nat, pubkey@.2),
                    self@.len(),
                    threshold as nat,
                    pubkey@.2,
                    b,
                ) && coordinate_fits(x) && coordinate_fits(y) && #[trigger] decoded_point(
                    uncompressed_encoding(x, y),
                ) == Some(combination(b[0], sgs@, sgs@.len() as int)) && !(pubkey@.0 == x
                    && pubkey@.1 == y),
            pubkey@.2 > 2 && (self@.len() as u32) >= threshold && res is Err && (matrix_error(
                res->Err_0,
                "not invertible matrix"@,
            ) || matrix_error(res->Err_0, "Not invertible element"@)) ==> elimination_stuck(
                system_gram(self@, threshold as nat, pubkey@.2),
                threshold as nat,
                pubkey@.2,
            ) || !is_prime(pubkey@.2),
            pubkey@.2 > 2 && (self@.len() as u32) >= threshold && is_prime(pubkey@.2)
                && invertible_matrix(
                system_gram(self@, threshold as nat, pubkey@.2),
                threshold as nat,
                pubkey@.2,
            ) ==> !(res is Err && (matrix_error(res->Err_0, "not invertible matrix"@)
                || matrix_error(res->Err_0, "Not invertible element"@))),
            pubkey@.2 > 2 && (self@.len() as u32) >= threshold ==> {
                ||| matrix_error(res->Err_0, "not invertible matrix"@)
                ||| matrix_error(res->Err_0, "Not invertible element"@)
                ||| (sgs@.len() != self@.len() && ec_point_error(
                    res->Err_0,
                    "Mismatched scalars and points lengths"@,
                ))
                ||| (sgs@.len() == self@.len() && !all_on_curve(sgs@) && ec_point_error(
                    res->Err_0,
                    "Invalid point"@,
                ))
                ||| (sgs@.len() == self@.len() && all_on_curve(sgs@) && ec_point_error(
                    res->Err_0,
                    "Point at infinity"@,
                ))
                ||| res matches Err(Error::InconsistentPubKey)
                ||| res is Ok
            },
    {
        let params = pubkey.get_curve().params();
        let field_order = params.n();
        let scalars = self.compute_bk_coefficient(threshold, field_order)?;
        proof {
            let b = choose|b: Seq<Seq<int>>|
                is_pseudoinverse(
                    coeff_matrix(self@, threshold as nat, field_order@),
                    self@.len(),
                    threshold as nat,
                    field_order@,
                    b,
                ) && row_vals(scalars@) == b[0];
            assert(scalars@.len() == row_vals(scalars@).len());
            let a = coeff_matrix(self@, threshold as nat, field_order@);
            let t = threshold as nat;
            let x = choose|x: Seq<Seq<int>>|
                #![trigger mat_mul(x, transpose(a, self@.len(), t), t, self@.len())]
                {
                    &&& is_rect(x, t, t)
                    &&& mat_cong(
                        mat_mul(x, mat_mul(transpose(a, self@.len(), t), a, self@.len(), t), t, t),
                        identity(t),
                        t,
                        t,
                        abs(field_order@),
                    )
                    &&& b == mod_cells(mat_mul(x, transpose(a, self@.len(), t), t, self@.len()), field_order@)
                };
            assert(b[0].len() == self@.len());
        }
        let got_pub = ECPoint::compute_linear_combination_point(scalars.as_slice(), sgs)?;
        if !pubkey.equal(&got_pub) {
            proof {
                let b = choose|b: Seq<Seq<int>>|
                    is_pseudoinverse(
                        coeff_matrix(self@, threshold as nat, field_order@),
                        self@.len(),
                        threshold as nat,
                        field_order@,
                        b,
                    ) && row_vals(scalars@) == b[0];
                assert(decoded_point(uncompressed_encoding(got_pub@.0, got_pub@.1)) == Some(
                    combination(b[0], sgs@, sgs@.len() as int),
                ));
            }
            return Err(Error::InconsistentPubKey);
        }
        proof {
            let b = choose|b: Seq<Seq<int>>|
                is_pseudoinverse(
                    coeff_matrix(self@, threshold as nat, field_order@),
                    self@.len(),
                    threshold as nat,
                    field_order@,
                    b,
                ) && row_vals(scalars@) == b[0];
            assert(curve_point(pubkey@) == curve_point(got_pub@));
            assert(!is_identity(combination(b[0], sgs@, sgs@.len() as int)));
        }
        Ok(())
    }
}

} // verus!
