//! Derivatives of polynomials over the secp256k1 scalar field, and of polynomials whose
//! coefficients are curve points, evaluated at a point.

use vstd::prelude::*;
use vstd::arithmetic::div_mod::*;
use vstd::arithmetic::power::pow;
use crate::scalar::{Scalar, group_order, lemma_scalar_range};
use crate::point::{Point, point_times, point_sum, identity_encoding, generator_times, in_group};
use crate::birkhoff_matrix::scalar_row;
use crate::interpolation::{falling, deriv_weight, deriv_sum};

verus! {

/// `sum_{m <= i < hi} i! / (i - d)! a[i] x^(i - m)`, the value of the `d`-th derivative of
/// `a` from index `m` on, by Horner's rule.
pub open spec fn derivative_tail(a: Seq<int>, d: nat, x: int, m: nat, hi: nat) -> int
    decreases hi - m,
{
    if m >= hi {
        0
    } else {
        falling(m, d) * a[m as int] + x * derivative_tail(a, d, x, m + 1, hi)
    }
}

/// The same Horner evaluation over points: the coefficient `c[i]` is taken `falling(i, d)`
/// times (modulo the group order), the accumulated point `x` times.
spec fn point_derivative_tail(c: Seq<Seq<u8>>, d: nat, x: int, m: nat, hi: nat) -> Seq<u8>
    decreases hi - m,
{
    if m >= hi {
        identity_encoding()
    } else {
        point_sum(
            point_times(point_derivative_tail(c, d, x, m + 1, hi), x),
            point_times(c[m as int], falling(m, d) % group_order()),
        )
    }
}

/// Below the order of the derivative, every weight vanishes.
proof fn lemma_deriv_sum_low(a: Seq<int>, d: nat, x: int, k: nat)
    requires
        k <= d,
    ensures
        deriv_sum(a, d, x, k) == 0,
    decreases k,
{
    if k > 0 {
        lemma_deriv_sum_low(a, d, x, (k - 1) as nat);
        assert(deriv_weight(d, x, (k - 1) as nat) == 0);
    }
}

/// Horner's rule from index `m` on, scaled by `x^(m - d)`, is the part of the derivative
/// from `m` on.
proof fn lemma_derivative_tail(a: Seq<int>, d: nat, x: int, m: nat, hi: nat)
    requires
        d <= m <= hi,
    ensures
        derivative_tail(a, d, x, m, hi) * pow(x, (m - d) as nat) == deriv_sum(a, d, x, hi) - deriv_sum(a, d, x, m),
    decreases hi - m,
{
    if m < hi {
        lemma_derivative_tail(a, d, x, m + 1, hi);
        let t1 = derivative_tail(a, d, x, m + 1, hi);
        let f = falling(m, d);
        let pw = pow(x, (m - d) as nat);
        assert(pow(x, (m + 1 - d) as nat) == x * pw) by {
            reveal(pow);
        }
        lemma_derivative_tail_sum(a, d, x, m, hi);
        assert(derivative_tail(a, d, x, m, hi) == f * a[m as int] + x * t1);
        assert((f * a[m as int] + x * t1) * pw == f * pw * a[m as int] + t1 * (x * pw)) by (nonlinear_arith);
        assert(deriv_weight(d, x, m) == f * pw);
    }
}

/// One step of the derivative's sum.
proof fn lemma_derivative_tail_sum(a: Seq<int>, d: nat, x: int, m: nat, hi: nat)
    requires
        d <= m < hi,
    ensures
        deriv_sum(a, d, x, m + 1) == deriv_sum(a, d, x, m) + falling(m, d) * pow(x, (m - d) as nat) * a[m as int],
{
}

/// `falling(i, d)` modulo the group order, as a scalar.
fn falling_factor(i: u64, d: u64) -> (r: Scalar)
    requires
        d <= i,
    ensures
        r@ == falling(i as nat, d as nat) % group_order(),
{
    let ghost n = group_order();
    let mut factor = Scalar::from_u64(1);
    let mut t: u64 = 0;
    while t < d
        invariant
            n == group_order(),
            d <= i,
            t <= d,
            factor@ == falling(i as nat, t as nat) % n,
        decreases d - t,
    {
        let next = factor.times(&Scalar::from_u64(i - t));
        proof {
            lemma_mul_mod_noop_left(falling(i as nat, t as nat), (i - t) as int, n);
            assert(falling(i as nat, (t + 1) as nat) == falling(i as nat, t as nat) * (i - t));
        }
        factor = next;
        t = t + 1;
    }
    factor
}

/// A polynomial with secp256k1 scalar coefficients, lowest degree first.
pub struct Polynomial {
    coefs: Vec<Scalar>,
}

impl Polynomial {
    /// The values of the coefficients, lowest degree first.
    pub closed spec fn coefficients(&self) -> Seq<int> {
        scalar_row(self.coefs@)
    }

    /// The polynomial with the coefficients `coefs`, lowest degree first.
    pub fn from_coefs(coefs: Vec<Scalar>) -> (p: Polynomial)
        ensures
            p.coefficients() == scalar_row(coefs@),
    {
        Polynomial { coefs }
    }

    /// The `d`-th derivative at `point`,
    /// `sum_{d <= i} a_i i! / (i - d)! point^(i - d)`, modulo the group order; zero when
    /// `d` is at least the number of coefficients.
    pub fn nth_derivative_at(&self, point: &Scalar, d: u64) -> (r: Scalar)
        ensures
            r@ == deriv_sum(self.coefficients(), d as nat, point@, self.coefficients().len()) % group_order(),
    {
        let ghost n = group_order();
        let ghost a = self.coefficients();
        let ghost x = point@;
        let len = self.coefs.len();
        if d >= len as u64 {
            proof {
                lemma_deriv_sum_low(a, d as nat, x, len as nat);
            }
            return Scalar::zero();
        }
        let d_index = d as usize;
        let mut acc = Scalar::zero();
        let mut i: usize = len;
        while i > d_index
            invariant
                n == group_order(),
                a == self.coefficients(),
                x == point@,
                len == self.coefs@.len(),
                d_index == d,
                d_index <= i <= len,
                acc@ == derivative_tail(a, d as nat, x, i as nat, len as nat) % n,
            decreases i,
        {
            i = i - 1;
            let factor = falling_factor(i as u64, d);
            let term = self.coefs[i].times(&factor);
            let next = acc.times(point).plus(&term);
            proof {
                let t1 = derivative_tail(a, d as nat, x, (i + 1) as nat, len as nat);
                let f = falling(i as nat, d as nat);
                assert(a[i as int] == self.coefs@[i as int]@);
                lemma_mul_mod_noop_left(t1, x, n);
                lemma_mul_mod_noop_right(a[i as int], f, n);
                lemma_add_mod_noop(t1 * x, a[i as int] * f, n);
                assert(t1 * x + a[i as int] * f == f * a[i as int] + x * t1) by (nonlinear_arith);
            }
            acc = next;
        }
        proof {
            lemma_derivative_tail(a, d as nat, x, d as nat, len as nat);
            lemma_deriv_sum_low(a, d as nat, x, d as nat);
            assert(pow(x, 0) == 1) by {
                reveal(pow);
            }
            assert(derivative_tail(a, d as nat, x, d as nat, len as nat) * 1 == derivative_tail(
                a,
                d as nat,
                x,
                d as nat,
                len as nat,
            ));
        }
        acc
    }
}

/// The `d`-th derivative at `x` of the polynomial with the point coefficients `c`, each
/// `f_i G`: `f^(d)(x) G`, the sum of the derivative terms `i! / (i - d)! f_i x^(i - d)`
/// times the generator.
pub open spec fn point_derivative(c: Seq<Seq<u8>>, x: int, d: nat) -> Seq<u8> {
    generator_times(deriv_sum(discrete_logs(c), d, x, c.len()) % group_order())
}

/// A polynomial whose coefficients are secp256k1 points, lowest degree first.
pub struct PointPolynomial {
    coefs: Vec<Point>,
}

impl PointPolynomial {
    /// Every coefficient is a multiple of the generator.
    #[verifier::type_invariant]
    spec fn coefficients_in_group(&self) -> bool {
        forall|i: int| 0 <= i < self.coefs@.len() ==> in_group(#[trigger] self.coefs@[i]@)
    }

    /// The encodings of the coefficients, lowest degree first.
    pub closed spec fn coefficients(&self) -> Seq<Seq<u8>> {
        Seq::new(self.coefs@.len(), |i: int| self.coefs@[i]@)
    }

    /// The polynomial with the coefficients `coefs`, lowest degree first.
    pub fn from_coefs(coefs: Vec<Point>) -> (p: PointPolynomial)
        ensures
            p.coefficients() == Seq::new(coefs@.len(), |i: int| coefs@[i]@),
    {
        let mut k: usize = 0;
        while k < coefs.len()
            invariant
                k <= coefs@.len(),
                forall|i: int| 0 <= i < k ==> in_group(#[trigger] coefs@[i]@),
            decreases coefs.len() - k,
        {
            let c = &coefs[k];
            proof {
                use_type_invariant(c);
            }
            k = k + 1;
        }
        PointPolynomial { coefs }
    }

    /// The number of coefficients.
    pub fn len(&self) -> (r: usize)
        ensures
            r == self.coefficients().len(),
    {
        self.coefs.len()
    }

    /// The coefficient of degree `k`.
    pub fn coefficient(&self, k: usize) -> (r: &Point)
        requires
            k < self.coefficients().len(),
        ensures
            r@ == self.coefficients()[k as int],
    {
        &self.coefs[k]
    }

    /// The `d`-th derivative at `point`, by Horner's rule over the coefficients from
    /// degree `d` on, each taken `i! / (i - d)!` times. Every coefficient is `f_i G` for a
    /// scalar `f_i`, and the result is `f^(d)(point) G`: the derivative of the commitment is
    /// the commitment to the derivative.
    pub fn nth_derivative_at(&self, point: &Scalar, d: u64) -> (r: Point)
        ensures
            r@ == point_derivative(self.coefficients(), point@, d as nat),
            forall|f: Seq<int>|
                #[trigger] commits_to(self.coefficients(), f) ==> r@ == generator_times(
                    deriv_sum(f, d as nat, point@, f.len()) % group_order(),
                ),
    {
        proof {
            use_type_invariant(self);
            lemma_commits_to_discrete_logs(self.coefficients());
        }
        self.nth_derivative_at_horner(point, d)
    }

    fn nth_derivative_at_horner(&self, point: &Scalar, d: u64) -> (r: Point)
        ensures
            r@ == (if d >= self.coefficients().len() {
                identity_encoding()
            } else {
                point_derivative_tail(self.coefficients(), d as nat, point@, d as nat, self.coefficients().len())
            }),
            forall|f: Seq<int>|
                #[trigger] commits_to(self.coefficients(), f) ==> r@ == generator_times(
                    deriv_sum(f, d as nat, point@, f.len()) % group_order(),
                ),
    {
        let ghost c = self.coefficients();
        let ghost n = group_order();
        let ghost x = point@;
        let len = self.coefs.len();
        if d >= len as u64 {
            let z = Point::zero();
            proof {
                assert forall|f: Seq<int>| #[trigger] commits_to(c, f) implies z@ == generator_times(
                    deriv_sum(f, d as nat, x, f.len()) % n,
                ) by {
                    lemma_deriv_sum_low(f, d as nat, x, len as nat);
                    lemma_small_mod(0, n as nat);
                }
            }
            return z;
        }
        let d_index = d as usize;
        let mut acc = Point::zero();
        let mut i: usize = len;
        proof {
            assert forall|f: Seq<int>| #[trigger] commits_to(c, f) implies acc@ == generator_times(
                derivative_tail(f, d as nat, x, len as nat, len as nat) % n,
            ) by {
                lemma_small_mod(0, n as nat);
            }
        }
        while i > d_index
            invariant
                c == self.coefficients(),
                n == group_order(),
                x == point@,
                len == self.coefs@.len(),
                d_index == d,
                d_index <= i <= len,
                acc@ == point_derivative_tail(c, d as nat, point@, i as nat, len as nat),
                forall|f: Seq<int>|
                    #[trigger] commits_to(c, f) ==> acc@ == generator_times(
                        derivative_tail(f, d as nat, x, i as nat, len as nat) % n,
                    ),
            decreases i,
        {
            i = i - 1;
            let factor = falling_factor(i as u64, d);
            let term = self.coefs[i].times(&factor);
            proof {
                assert(c[i as int] == self.coefs@[i as int]@);
            }
            let ghost acc0 = acc@;
            let scaled = acc.times(point);
            let next = scaled.plus(&term);
            proof {
                assert forall|f: Seq<int>| #[trigger] commits_to(c, f) implies next@ == generator_times(
                    derivative_tail(f, d as nat, x, i as nat, len as nat) % n,
                ) by {
                    let t1 = derivative_tail(f, d as nat, x, (i + 1) as nat, len as nat);
                    let fl = falling(i as nat, d as nat);
                    let v = t1 % n;
                    let fi = f[i as int];
                    lemma_mod_bound(t1, n);
                    assert(generator_times(v) == acc0);
                    assert(scaled@ == generator_times((v * x) % n));
                    assert(generator_times(fi) == c[i as int]);
                    assert(term@ == generator_times((fi * factor@) % n));
                    lemma_mod_bound(v * x, n);
                    lemma_mod_bound(fi * factor@, n);
                    assert(next@ == generator_times(((v * x) % n + (fi * factor@) % n) % n));
                    lemma_mul_mod_noop_left(t1, x, n);
                    lemma_mul_mod_noop_right(fi, fl, n);
                    lemma_add_mod_noop(t1 * x, fi * fl, n);
                    assert(t1 * x + fi * fl == fl * fi + x * t1) by (nonlinear_arith);
                    assert(derivative_tail(f, d as nat, x, i as nat, len as nat) == fl * fi + x * t1);
                }
            }
            acc = next;
        }
        proof {
            assert forall|f: Seq<int>| #[trigger] commits_to(c, f) implies acc@ == generator_times(
                deriv_sum(f, d as nat, x, f.len()) % n,
            ) by {
                lemma_derivative_tail(f, d as nat, x, d as nat, len as nat);
                lemma_deriv_sum_low(f, d as nat, x, d as nat);
                assert(pow(x, 0) == 1) by {
                    reveal(pow);
                }
                assert(derivative_tail(f, d as nat, x, d as nat, len as nat) * 1 == derivative_tail(
                    f,
                    d as nat,
                    x,
                    d as nat,
                    len as nat,
                ));
            }
        }
        acc
    }
}

/// For each point `c_i`, the scalar `v` in `[0, group order)` with `v G == c_i`, where
/// there is one.
pub open spec fn discrete_logs(c: Seq<Seq<u8>>) -> Seq<int> {
    Seq::new(
        c.len(),
        |i: int| choose|v: int| 0 <= v < group_order() && #[trigger] generator_times(v) == c[i],
    )
}

/// Points that are all multiples of the generator commit to their discrete logarithms.
proof fn lemma_commits_to_discrete_logs(c: Seq<Seq<u8>>)
    requires
        forall|i: int| 0 <= i < c.len() ==> in_group(#[trigger] c[i]),
    ensures
        commits_to(c, discrete_logs(c)),
{
    let f = discrete_logs(c);
    assert forall|i: int| 0 <= i < f.len() implies 0 <= #[trigger] f[i] < group_order() && c[i] == generator_times(
        f[i],
    ) by {
        assert(in_group(c[i]));
    }
}

/// `c` is the commitment to the scalar polynomial `f`: coefficient `i` of `c` is `f_i G`.
pub open spec fn commits_to(c: Seq<Seq<u8>>, f: Seq<int>) -> bool {
    &&& f.len() == c.len()
    &&& forall|i: int| 0 <= i < f.len() ==> 0 <= #[trigger] f[i] < group_order() && c[i] == generator_times(f[i])
}

} // verus!
