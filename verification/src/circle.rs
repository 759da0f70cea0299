//! The circle group, its cyclic subgroups and their cosets.

use vstd::arithmetic::div_mod::{
    lemma_add_mod_noop, lemma_fundamental_div_mod, lemma_mod_bound, lemma_small_mod,
    lemma_sub_mod_noop,
};
use vstd::arithmetic::mul::{lemma_mul_is_commutative, lemma_mul_is_distributive_add};
use vstd::arithmetic::power2::{lemma2_to64, lemma_pow2_adds, pow2};
use vstd::prelude::*;

use crate::fields::cm31::CM31;
use crate::fields::gaussian::gpow;
use crate::fields::m31::{M31, P};
use crate::fields::prime::{circle_gen, lemma_circle_gen_order};
use crate::fields::qm31::{lemma_coordinates, QM31};
use crate::fields::quadratic::{
    lemma_quad_assoc, lemma_quad_canon, lemma_quad_comm, lemma_quad_one, quad_fst, quad_snd,
};
use crate::fields::{lemma_neg_one_times, Field};
use crate::utils::{lemma_pow2_bound, lemma_pow2_double, lemma_pow2_le, pow2_usize};

verus! {

/// A point of the circle `x^2 + y^2 = 1`.
#[derive(Clone, Copy, Debug, PartialEq, Eq, Structural, Hash)]
pub struct CirclePoint<F> {
    pub x: F,
    pub y: F,
}

/// `2 x^2 - 1`, the `x` coordinate of twice a point.
pub open spec fn double_x_s<F: Field>(x: F) -> F {
    x.times(x).plus(x.times(x)).minus(F::one_el())
}

/// [`double_x_s`] applied `n` times.
pub open spec fn double_x_iter<F: Field>(x: F, n: nat) -> F
    decreases n,
{
    if n == 0 {
        x
    } else {
        double_x_s(double_x_iter(x, (n - 1) as nat))
    }
}

/// The double of the `x` coordinate.
pub fn double_x<F: Field>(x: F) -> (r: F)
    ensures
        r == double_x_s(x),
{
    let sx = x.mul(x);
    sx.add(sx).sub(F::one())
}

impl<F: Field> CirclePoint<F> {
    /// The neutral point `(1, 0)`.
    pub open spec fn neutral() -> Self {
        CirclePoint { x: F::one_el(), y: F::zero_el() }
    }

    /// The group law.
    pub open spec fn join(self, q: Self) -> Self {
        CirclePoint {
            x: self.x.times(q.x).minus(self.y.times(q.y)),
            y: self.x.times(q.y).plus(self.y.times(q.x)),
        }
    }

    /// The reflection in the `x` axis, which is the group inverse.
    pub open spec fn reflected(self) -> Self {
        CirclePoint { x: self.x, y: self.y.opposite() }
    }

    pub open spec fn canonical_point(self) -> Self {
        CirclePoint { x: self.x.canon(), y: self.y.canon() }
    }

    /// The point joined with itself `n` times.
    pub open spec fn multiple(self, n: nat) -> Self
        decreases n,
    {
        if n == 0 {
            Self::neutral()
        } else {
            self.multiple((n - 1) as nat).join(self)
        }
    }

    /// The point doubled `n` times.
    pub open spec fn doubled(self, n: nat) -> Self
        decreases n,
    {
        if n == 0 {
            self
        } else {
            self.doubled((n - 1) as nat).join(self.doubled((n - 1) as nat))
        }
    }

    pub fn zero() -> (r: Self)
        ensures
            r == Self::neutral(),
    {
        CirclePoint { x: F::one(), y: F::zero() }
    }

    pub fn add(self, q: Self) -> (r: Self)
        ensures
            r == self.join(q),
    {
        CirclePoint {
            x: self.x.mul(q.x).sub(self.y.mul(q.y)),
            y: self.x.mul(q.y).add(self.y.mul(q.x)),
        }
    }

    pub fn conjugate(self) -> (r: Self)
        ensures
            r == self.reflected(),
    {
        CirclePoint { x: self.x, y: self.y.neg() }
    }

    /// The difference in the group.
    pub fn sub(self, q: Self) -> (r: Self)
        ensures
            r == self.join(q.reflected()),
    {
        self.add(q.conjugate())
    }

    /// The opposite point `(-x, -y)`.
    pub fn antipode(self) -> (r: Self)
        ensures
            r == (CirclePoint { x: self.x.opposite(), y: self.y.opposite() }),
    {
        CirclePoint { x: self.x.neg(), y: self.y.neg() }
    }

    pub fn double(self) -> (r: Self)
        ensures
            r == self.join(self),
    {
        self.add(self)
    }

    pub fn repeated_double(self, n: u32) -> (r: Self)
        ensures
            r == self.doubled(n as nat),
    {
        let mut r = self;
        for i in 0..n
            invariant
                r == self.doubled(i as nat),
        {
            r = r.double();
        }
        r
    }

    /// The `scalar`-fold multiple, by doubling and adding.
    pub fn mul(self, scalar: u128) -> (r: Self)
        ensures
            r == self.multiple(scalar as nat),
    {
        let mut r = Self::zero();
        let mut base = self;
        let mut k: u128 = scalar;
        let ghost mut w: nat = 1;
        let ghost mut done: nat = 0;
        proof {
            lemma_multiple_one(self);
            assert(1 * (scalar as nat) == scalar);
        }
        while k > 0
            invariant
                done + w * k == scalar,
                r == self.multiple(done),
                k > 0 ==> base.canonical_point() == self.multiple(w).canonical_point(),
            decreases k,
        {
            let ghost k0 = k as int;
            let ghost w0 = w as int;
            proof {
                assert(w0 * k0 == (2 * w0) * (k0 / 2) + w0 * (k0 % 2)) by (nonlinear_arith)
                    requires
                        k0 == 2 * (k0 / 2) + k0 % 2,
                ;
            }
            if k % 2 == 1 {
                proof {
                    lemma_multiple_add(self, done, w);
                    lemma_join_canon(r, base);
                    lemma_join_canon(r, self.multiple(w));
                    assert(w0 * (k0 % 2) == w0) by (nonlinear_arith)
                        requires
                            k0 % 2 == 1,
                    ;
                    done = done + w;
                }
                r = r.add(base);
            } else {
                assert(w0 * (k0 % 2) == 0) by (nonlinear_arith)
                    requires
                        k0 % 2 == 0,
                ;
            }
            k = k / 2;
            proof {
                lemma_multiple_add(self, w, w);
                lemma_join_canon(base, base);
                lemma_join_canon(self.multiple(w), self.multiple(w));
                w = 2 * w;
            }
            if k > 0 {
                base = base.double();
            }
        }
        assert(w * 0 == 0);
        r
    }
}

/// The group law written as the product of a quadratic extension.
proof fn lemma_join_quad<F: Field>(p: CirclePoint<F>, q: CirclePoint<F>)
    ensures
        p.join(q).x == quad_fst(F::one_el().opposite(), p.x, p.y, q.x, q.y),
        p.join(q).y == quad_snd(p.x, p.y, q.x, q.y),
{
    F::law_sub(p.x.times(q.x), p.y.times(q.y));
    lemma_neg_one_times(p.y.times(q.y));
}

pub proof fn lemma_join_comm<F: Field>(p: CirclePoint<F>, q: CirclePoint<F>)
    ensures
        p.join(q) == q.join(p),
{
    lemma_join_quad(p, q);
    lemma_join_quad(q, p);
    lemma_quad_comm(F::one_el().opposite(), p.x, p.y, q.x, q.y);
}

pub proof fn lemma_join_assoc<F: Field>(p: CirclePoint<F>, q: CirclePoint<F>, r: CirclePoint<F>)
    ensures
        p.join(q).join(r) == p.join(q.join(r)),
{
    lemma_join_quad(p, q);
    lemma_join_quad(q, r);
    lemma_join_quad(p.join(q), r);
    lemma_join_quad(p, q.join(r));
    lemma_quad_assoc(F::one_el().opposite(), p.x, p.y, q.x, q.y, r.x, r.y);
}

pub proof fn lemma_join_neutral<F: Field>(p: CirclePoint<F>)
    ensures
        p.join(CirclePoint::neutral()) == p.canonical_point(),
        CirclePoint::neutral().join(p) == p.canonical_point(),
{
    lemma_join_quad(p, CirclePoint::neutral());
    lemma_quad_one(F::one_el().opposite(), p.x, p.y);
    lemma_join_comm(p, CirclePoint::neutral());
}

pub proof fn lemma_join_canon<F: Field>(p: CirclePoint<F>, q: CirclePoint<F>)
    ensures
        p.canonical_point().join(q) == p.join(q),
        p.join(q.canonical_point()) == p.join(q),
        p.canonical_point().join(q.canonical_point()) == p.join(q),
        p.join(q).canonical_point() == p.join(q),
{
    let b = F::one_el().opposite();
    lemma_join_quad(p, q);
    lemma_join_quad(p.canonical_point(), q);
    lemma_quad_canon(b, p.x, p.y, q.x, q.y);
    lemma_join_comm(p, q);
    lemma_join_comm(p, q.canonical_point());
    lemma_join_quad(q, p);
    lemma_join_quad(q.canonical_point(), p);
    lemma_quad_canon(b, q.x, q.y, p.x, p.y);
    lemma_join_comm(p.canonical_point(), q.canonical_point());
    lemma_join_comm(p.canonical_point(), q);
    lemma_join_quad(q.canonical_point(), p.canonical_point());
    lemma_join_quad(q, p.canonical_point());
    lemma_quad_canon(b, q.x, q.y, p.x.canon(), p.y.canon());
    F::law_canon_results(p.x.times(q.x), p.y.times(q.y));
    F::law_canon_results(p.x.times(q.y), p.y.times(q.x));
}

pub proof fn lemma_multiple_canonical<F: Field>(p: CirclePoint<F>, n: nat)
    ensures
        p.multiple(n).canonical_point() == p.multiple(n),
{
    if n == 0 {
        F::law_canon_results(p.x, p.x);
    } else {
        lemma_join_canon(p.multiple((n - 1) as nat), p);
    }
}

pub proof fn lemma_multiple_one<F: Field>(p: CirclePoint<F>)
    ensures
        p.multiple(1) == p.canonical_point(),
        p.canonical_point().canonical_point() == p.canonical_point(),
{
    assert(p.multiple(1) == p.multiple(0).join(p));
    lemma_join_neutral(p);
    F::law_canon_results(p.x, p.x);
    F::law_canon_results(p.y, p.y);
}

pub proof fn lemma_multiple_add<F: Field>(p: CirclePoint<F>, a: nat, b: nat)
    ensures
        p.multiple(a + b) == p.multiple(a).join(p.multiple(b)),
    decreases b,
{
    if b == 0 {
        lemma_join_neutral(p.multiple(a));
        lemma_multiple_canonical(p, a);
    } else {
        let b1 = (b - 1) as nat;
        lemma_multiple_add(p, a, b1);
        assert((a + b - 1) as nat == a + b1);
        lemma_join_assoc(p.multiple(a), p.multiple(b1), p);
    }
}

pub proof fn lemma_multiple_mul<F: Field>(p: CirclePoint<F>, a: nat, b: nat)
    ensures
        p.multiple(a).multiple(b) == p.multiple(a * b),
    decreases b,
{
    if b == 0 {
        assert(a * b == 0) by (nonlinear_arith)
            requires
                b == 0,
        ;
    } else {
        let b1 = (b - 1) as nat;
        lemma_multiple_mul(p, a, b1);
        lemma_mul_is_distributive_add(a as int, b1 as int, 1);
        assert(a * b == a * b1 + a);
        lemma_multiple_add(p, a * b1, a);
    }
}

/// Doubling `n` times multiplies by `2^n`.
pub proof fn lemma_doubled_multiple<F: Field>(p: CirclePoint<F>, n: nat)
    ensures
        p.doubled(n).canonical_point() == p.multiple(pow2(n)),
        n > 0 ==> p.doubled(n) == p.multiple(pow2(n)),
    decreases n,
{
    if n == 0 {
        lemma2_to64();
        lemma_multiple_one(p);
    } else {
        let n1 = (n - 1) as nat;
        lemma_doubled_multiple(p, n1);
        lemma_pow2_double(n);
        lemma_multiple_add(p, pow2(n1), pow2(n1));
        lemma_join_canon(p.doubled(n1), p.doubled(n1));
        lemma_multiple_canonical(p, pow2(n1));
        assert(pow2(n1) + pow2(n1) == pow2(n));
    }
}

/// The norm `x^2 + y^2` of a point of the plane.
pub open spec fn norm_of<F: Field>(p: CirclePoint<F>) -> F {
    p.x.times(p.x).plus(p.y.times(p.y))
}

// ---------------------------------------------------------------------------------------------
// The generator of the circle over the base field.

/// The generator of the circle group.
pub open spec fn m31_gen() -> CirclePoint<M31> {
    CirclePoint { x: M31(2), y: M31(1268011823) }
}

pub fn m31_circle_gen() -> (r: CirclePoint<M31>)
    ensures
        r == m31_gen(),
{
    CirclePoint { x: M31(2), y: M31(1268011823) }
}

/// The logarithm of the order of the circle group.
pub const M31_CIRCLE_LOG_ORDER: u32 = 31;

/// The order of the circle group.
pub open spec fn circle_order() -> nat {
    0x8000_0000
}

/// A generator of the circle over the secure field.
pub open spec fn secure_gen() -> CirclePoint<QM31> {
    CirclePoint {
        x: QM31(CM31(M31(1), M31(0)), CM31(M31(478637715), M31(513582971))),
        y: QM31(
            CM31(M31(992285211), M31(649143431)),
            CM31(M31(740191619), M31(1186584352)),
        ),
    }
}

pub fn secure_field_circle_gen() -> (r: CirclePoint<QM31>)
    ensures
        r == secure_gen(),
{
    CirclePoint {
        x: QM31::from_u32_unchecked(1, 0, 478637715, 513582971),
        y: QM31::from_u32_unchecked(992285211, 649143431, 740191619, 1186584352),
    }
}

/// The `n`-fold multiple of the generator.
pub open spec fn gen_point(n: nat) -> CirclePoint<M31> {
    m31_gen().multiple(n)
}

/// A product of Gaussian residues from the four products of their parts.
proof fn lemma_gaussian_product(
    a: (u32, u32),
    b: (u32, u32),
    pq: (int, int),
    rs: (int, int),
    c: (u32, u32),
)
    requires
        (a.0 * b.0) % P as int == pq.0,
        (a.1 * b.1) % P as int == pq.1,
        (a.0 * b.1) % P as int == rs.0,
        (a.1 * b.0) % P as int == rs.1,
        (pq.0 - pq.1) % P as int == c.0,
        (rs.0 + rs.1) % P as int == c.1,
    ensures
        CM31(M31(a.0), M31(a.1)).times(CM31(M31(b.0), M31(b.1))) == CM31(M31(c.0), M31(c.1)),
{
}

/// A sum of Gaussian residues.
proof fn lemma_gaussian_sum(a: (u32, u32), b: (u32, u32), c: (u32, u32))
    requires
        (a.0 + b.0) % P as int == c.0,
        (a.1 + b.1) % P as int == c.1,
    ensures
        CM31(M31(a.0), M31(a.1)).plus(CM31(M31(b.0), M31(b.1))) == CM31(M31(c.0), M31(c.1)),
{
}

/// The square of the first coordinate.
proof fn lemma_secure_gen_x()
    ensures
        secure_gen().x.times(secure_gen().x) == QM31(
            CM31(M31(1266929062), M31(1489456250)),
            CM31(M31(957275430), M31(1027165942)),
        ),
{
    lemma_gaussian_product((1, 0), (1, 0), (1, 0), (0, 0), (1, 0));
    lemma_gaussian_product(
        (478637715, 513582971),
        (478637715, 513582971),
        (2099804180, 1724638035),
        (815443438, 815443438),
        (375166145, 1630886876),
    );
    lemma_gaussian_product(
        (2, 1),
        (375166145, 1630886876),
        (750332290, 1630886876),
        (1114290105, 375166145),
        (1266929061, 1489456250),
    );
    lemma_gaussian_product(
        (1, 0),
        (478637715, 513582971),
        (478637715, 0),
        (513582971, 0),
        (478637715, 513582971),
    );
    lemma_gaussian_product(
        (478637715, 513582971),
        (1, 0),
        (478637715, 0),
        (0, 513582971),
        (478637715, 513582971),
    );
    lemma_gaussian_sum((1, 0), (1266929061, 1489456250), (1266929062, 1489456250));
    lemma_gaussian_sum((478637715, 513582971), (478637715, 513582971), (957275430, 1027165942));
    let (a, b) = (CM31(M31(1), M31(0)), CM31(M31(478637715), M31(513582971)));
    lemma_coordinates(QM31(a, b), QM31(a, b), M31(0));
}

/// The square of the second coordinate.
proof fn lemma_secure_gen_y()
    ensures
        secure_gen().y.times(secure_gen().y) == QM31(
            CM31(M31(880554586), M31(658027397)),
            CM31(M31(1190208217), M31(1120317705)),
        ),
{
    lemma_gaussian_product(
        (992285211, 649143431),
        (992285211, 649143431),
        (1248462406, 664166920),
        (2141467584, 2141467584),
        (584295486, 2135451521),
    );
    lemma_gaussian_product(
        (740191619, 1186584352),
        (740191619, 1186584352),
        (1891746702, 1209734428),
        (533882724, 533882724),
        (682012274, 1067765448),
    );
    lemma_gaussian_product(
        (2, 1),
        (682012274, 1067765448),
        (1364024548, 1067765448),
        (2135530896, 682012274),
        (296259100, 670059523),
    );
    lemma_gaussian_product(
        (992285211, 649143431),
        (740191619, 1186584352),
        (1681559636, 12713704),
        (520623426, 1113277250),
        (1668845932, 1633900676),
    );
    lemma_gaussian_product(
        (740191619, 1186584352),
        (992285211, 649143431),
        (1681559636, 12713704),
        (1113277250, 520623426),
        (1668845932, 1633900676),
    );
    lemma_gaussian_sum((584295486, 2135451521), (296259100, 670059523), (880554586, 658027397));
    lemma_gaussian_sum(
        (1668845932, 1633900676),
        (1668845932, 1633900676),
        (1190208217, 1120317705),
    );
    let (a, b) = (CM31(M31(992285211), M31(649143431)), CM31(M31(740191619), M31(1186584352)));
    lemma_coordinates(QM31(a, b), QM31(a, b), M31(0));
}

/// The generator over the secure field lies on the circle.
pub proof fn lemma_secure_gen_on_circle()
    ensures
        norm_of(secure_gen()) == QM31::one_el(),
{
    lemma_secure_gen_x();
    lemma_secure_gen_y();
    lemma_gaussian_sum((1266929062, 1489456250), (880554586, 658027397), (1, 0));
    lemma_gaussian_sum((957275430, 1027165942), (1190208217, 1120317705), (0, 0));
    lemma_coordinates(
        QM31(CM31(M31(1266929062), M31(1489456250)), CM31(M31(957275430), M31(1027165942))),
        QM31(CM31(M31(880554586), M31(658027397)), CM31(M31(1190208217), M31(1120317705))),
        M31(0),
    );
}

/// Multiples of the generator are its powers as Gaussian residues.
pub proof fn lemma_gen_point_power(n: nat)
    ensures
        gen_point(n).x.0 as int == gpow(circle_gen(), n, P as int).0,
        gen_point(n).y.0 as int == gpow(circle_gen(), n, P as int).1,
    decreases n,
{
    let p = P as int;
    if n > 0 {
        let n1 = (n - 1) as nat;
        lemma_gen_point_power(n1);
        let q = gen_point(n1);
        let a = q.x.0 as int;
        let b = q.y.0 as int;
        let g = circle_gen();
        lemma_mod_bound(a * g.0, p);
        lemma_mod_bound(b * g.1, p);
        lemma_mod_bound(a * g.1, p);
        lemma_mod_bound(b * g.0, p);
        lemma_sub_mod_noop(a * g.0, b * g.1, p);
        lemma_add_mod_noop(a * g.1, b * g.0, p);
        lemma_mod_bound(a * g.0 - b * g.1, p);
        lemma_mod_bound(a * g.1 + b * g.0, p);
    }
}

/// A quarter, a half and the whole of the way round.
pub proof fn lemma_gen_point_landmarks()
    ensures
        gen_point(0x2000_0000) == (CirclePoint { x: M31(0), y: M31(2147483646) }),
        gen_point(0x4000_0000) == (CirclePoint { x: M31(2147483646), y: M31(0) }),
        gen_point(0x8000_0000) == CirclePoint::<M31>::neutral(),
{
    lemma_circle_gen_order();
    lemma_gen_point_power(0x2000_0000);
    lemma_gen_point_power(0x4000_0000);
    lemma_gen_point_power(0x8000_0000);
}

/// Doubling a multiple of the generator doubles its index.
pub proof fn lemma_gen_point_doubled(idx: nat, l: nat)
    ensures
        gen_point(idx).doubled(l) == gen_point(pow2(l) * idx),
{
    lemma_doubled_of_multiple(m31_gen(), idx, l);
}

proof fn lemma_doubled_of_multiple<F: Field>(g: CirclePoint<F>, idx: nat, l: nat)
    ensures
        g.multiple(idx).doubled(l) == g.multiple(pow2(l) * idx),
{
    let p = g.multiple(idx);
    lemma_doubled_multiple(p, l);
    lemma_multiple_mul(g, idx, pow2(l));
    assert(idx * pow2(l) == pow2(l) * idx) by (nonlinear_arith);
    if l == 0 {
        lemma2_to64();
        lemma_multiple_canonical(g, idx);
    }
}

pub proof fn lemma_gen_point_canonical(n: nat)
    ensures
        gen_point(n).canonical_point() == gen_point(n),
        gen_point(n).x.canon() == gen_point(n).x,
        gen_point(n).y.canon() == gen_point(n).y,
{
    lemma_multiple_canonical(m31_gen(), n);
}

pub proof fn lemma_gen_point_add(a: nat, b: nat)
    ensures
        gen_point(a + b) == gen_point(a).join(gen_point(b)),
{
    lemma_multiple_add(m31_gen(), a, b);
}

/// Indices count modulo the order of the group.
pub proof fn lemma_gen_point_period(a: nat, k: nat)
    ensures
        gen_point(a + circle_order() * k) == gen_point(a),
    decreases k,
{
    if k == 0 {
        assert(circle_order() * 0 == 0);
    } else {
        let k1 = (k - 1) as nat;
        lemma_gen_point_period(a, k1);
        lemma_mul_is_distributive_add(circle_order() as int, k1 as int, 1);
        assert(a + circle_order() * k == (a + circle_order() * k1) + circle_order());
        lemma_gen_point_add(a + circle_order() * k1, circle_order());
        lemma_gen_point_landmarks();
        lemma_join_neutral(gen_point(a));
        lemma_gen_point_canonical(a);
    }
}

pub proof fn lemma_gen_point_mod(a: nat)
    ensures
        gen_point(a % circle_order()) == gen_point(a),
{
    lemma_fundamental_div_mod(a as int, circle_order() as int);
    lemma_gen_point_period(a % circle_order(), a / circle_order());
}

/// Joining with `(-1, 0)` and with `(0, -1)`.
proof fn lemma_join_turns<F: Field>(p: CirclePoint<F>)
    ensures
        ({
            let q = p.join(CirclePoint { x: F::one_el().opposite(), y: F::zero_el() });
            q.x == p.x.opposite() && q.y == p.y.opposite()
        }),
        ({
            let q = p.join(CirclePoint { x: F::zero_el(), y: F::one_el().opposite() });
            q.x == p.y.canon() && q.y == p.x.opposite()
        }),
{
    let (zero, e) = (F::zero_el(), F::one_el().opposite());
    lemma_neg_one_times(p.x);
    lemma_neg_one_times(p.y);
    F::law_mul_comm(e, p.x);
    F::law_mul_comm(e, p.y);
    crate::fields::lemma_mul_zero(p.x);
    crate::fields::lemma_mul_zero(p.y);
    F::law_canon_results(p.x, p.x);
    F::law_canon_results(p.y, p.y);
    F::law_canon_results(zero, zero);
    // x * e - y * 0 and x * 0 + y * e
    F::law_sub(p.x.opposite(), zero);
    F::law_add_opposite(zero);
    F::law_add_comm(zero, zero.opposite());
    F::law_add_zero(zero.opposite());
    F::law_add_zero(p.x.opposite());
    F::law_add_comm(zero, p.y.opposite());
    F::law_add_zero(p.y.opposite());
    // x * 0 - y * e and x * e + y * 0
    F::law_sub(zero, p.y.opposite());
    crate::fields::lemma_opposite_twice(p.y);
    F::law_add_comm(zero, p.y.canon());
    F::law_add_zero(p.y.canon());
}

/// Half a turn takes `(x, y)` to `(-x, -y)`.
pub proof fn lemma_gen_point_half_turn(a: nat)
    ensures
        gen_point(a + 0x4000_0000).x == gen_point(a).x.opposite(),
        gen_point(a + 0x4000_0000).y == gen_point(a).y.opposite(),
{
    lemma_gen_point_add(a, 0x4000_0000);
    lemma_gen_point_landmarks();
    lemma_unit_words();
    lemma_join_turns(gen_point(a));
}

proof fn lemma_unit_words()
    ensures
        M31(0) == M31::zero_el(),
        M31(2147483646) == M31::one_el().opposite(),
{
}

/// A quarter turn takes `(x, y)` to `(y, -x)`.
pub proof fn lemma_gen_point_quarter_turn(a: nat)
    ensures
        gen_point(a + 0x2000_0000).x == gen_point(a).y,
        gen_point(a + 0x2000_0000).y == gen_point(a).x.opposite(),
{
    lemma_gen_point_add(a, 0x2000_0000);
    lemma_gen_point_landmarks();
    lemma_gen_point_canonical(a);
    lemma_unit_words();
    lemma_join_turns(gen_point(a));
}

/// The norm is multiplicative.
pub proof fn lemma_norm_join<F: Field>(p: CirclePoint<F>, q: CirclePoint<F>)
    ensures
        norm_of(p.join(q)) == norm_of(p).times(norm_of(q)),
{
    let (a, b, c, d) = (p.x, p.y, q.x, q.y);
    let ac = a.times(c);
    let bd = b.times(d);
    let ad = a.times(d);
    let bc = b.times(c);
    // (ac - bd)^2 = ac ac - ac bd - (bd ac - bd bd)
    crate::fields::lemma_distrib_sub(ac.minus(bd), ac, bd);
    crate::fields::lemma_distrib_sub_right(ac, bd, ac);
    crate::fields::lemma_distrib_sub_right(ac, bd, bd);
    // (ad + bc)^2 = (ad ad + bc ad) + (ad bc + bc bc)
    F::law_distrib(ad.plus(bc), ad, bc);
    crate::fields::lemma_distrib_right(ad, bc, ad);
    crate::fields::lemma_distrib_right(ad, bc, bc);
    // The cross terms agree: ac bd = ad bc.
    lemma_cross(a, c, b, d);
    lemma_cross(a, d, b, c);
    F::law_mul_comm(d, c);
    F::law_mul_comm(bd, ac);
    F::law_mul_comm(bc, ad);
    let m = ac.times(bd);
    assert(m == ad.times(bc));
    let s1 = ac.times(ac);
    let s2 = bd.times(bd);
    let s3 = ad.times(ad);
    let s4 = bc.times(bc);
    lemma_cancel_cross(s1, s2, s3, s4, m);
    // norm(p) norm(q) = (aa + bb)(cc + dd)
    lemma_cross(a, c, a, c);
    lemma_cross(b, d, b, d);
    lemma_cross(a, d, a, d);
    lemma_cross(b, c, b, c);
    let aa = a.times(a);
    let bb = b.times(b);
    let cc = c.times(c);
    let dd = d.times(d);
    crate::fields::lemma_distrib_right(aa, bb, cc.plus(dd));
    F::law_distrib(aa, cc, dd);
    F::law_distrib(bb, cc, dd);
    // (s1 + s2) + (s3 + s4) = (s1 + s3) + (s4 + s2)
    crate::fields::lemma_add_swap_middle(s1, s2, s3, s4);
    F::law_add_comm(s2, s4);
}

/// `(a c)(b d) = (a b)(c d)`.
proof fn lemma_cross<F: Field>(a: F, c: F, b: F, d: F)
    ensures
        a.times(c).times(b.times(d)) == a.times(b).times(c.times(d)),
{
    F::law_mul_assoc(a, c, b.times(d));
    crate::fields::lemma_mul_swap(c, b, d);
    F::law_mul_assoc(a, b, c.times(d));
}

/// `(s1 - m) - (m - s2) + ((s3 + m) + (m + s4)) = (s1 + s2) + (s3 + s4)`.
proof fn lemma_cancel_cross<F: Field>(s1: F, s2: F, s3: F, s4: F, m: F)
    ensures
        s1.minus(m).minus(m.minus(s2)).plus(s3.plus(m).plus(m.plus(s4))) == s1.plus(s2).plus(
            s3.plus(s4),
        ),
{
    let n = m.opposite();
    F::law_sub(s1, m);
    F::law_sub(m, s2);
    F::law_sub(s1.minus(m), m.minus(s2));
    crate::fields::lemma_opposite_sum(m, s2.opposite());
    crate::fields::lemma_opposite_twice(s2);
    F::law_canon_args(s2, n);
    F::law_add_comm(n, s2);
    F::law_add_comm(n, s2.canon());
    // left = (s1 + n) + (n + s2)
    crate::fields::lemma_add_swap_middle(s1, n, n, s2);
    F::law_add_comm(n, s2);
    crate::fields::lemma_add_swap_middle(s1, n, s2, n);
    // right = (s3 + m) + (m + s4)
    F::law_add_comm(m, s4);
    crate::fields::lemma_add_swap_middle(s3, m, s4, m);
    crate::fields::lemma_add_swap_middle(s1.plus(s2), n.plus(n), s3.plus(s4), m.plus(m));
    crate::fields::lemma_add_swap_middle(n, n, m, m);
    F::law_add_comm(n, m);
    F::law_add_opposite(m);
    F::law_add_zero(F::zero_el());
    F::law_add_zero(s1.plus(s2).plus(s3.plus(s4)));
    F::law_canon_results(s1.plus(s2), s3.plus(s4));
    F::law_canon_results(s1, s1);
}

/// Multiples of a point of the circle lie on it.
proof fn lemma_multiple_on_circle<F: Field>(p: CirclePoint<F>, n: nat)
    requires
        norm_of(p) == F::one_el(),
    ensures
        norm_of(p.multiple(n)) == F::one_el(),
    decreases n,
{
    let one = F::one_el();
    F::law_mul_one(one);
    F::law_canon_results(one, one);
    if n == 0 {
        crate::fields::lemma_mul_zero(F::zero_el());
        F::law_add_zero(one);
    } else {
        lemma_multiple_on_circle(p, (n - 1) as nat);
        lemma_norm_join(p.multiple((n - 1) as nat), p);
    }
}

proof fn lemma_gen_on_circle()
    ensures
        norm_of(m31_gen()) == M31::one_el(),
{
    assert(M31(2).times(M31(2)) == M31(4));
    assert(M31(1268011823).times(M31(1268011823)) == M31(2147483644));
    assert(M31(4).plus(M31(2147483644)) == M31(1));
}

/// Every multiple of the generator lies on the circle.
pub proof fn lemma_gen_point_on_circle(n: nat)
    ensures
        norm_of(gen_point(n)) == M31::one_el(),
{
    lemma_gen_on_circle();
    lemma_multiple_on_circle(m31_gen(), n);
}

/// Doubling a point of the circle doubles its `x` coordinate by the formula.
pub proof fn lemma_double_x<F: Field>(p: CirclePoint<F>)
    requires
        norm_of(p) == F::one_el(),
    ensures
        p.join(p).x == double_x_s(p.x),
{
    // x^2 - y^2 = x^2 + x^2 - (x^2 + y^2)
    let xx = p.x.times(p.x);
    let yy = p.y.times(p.y);
    F::law_sub(xx.plus(xx), xx.plus(yy));
    crate::fields::lemma_opposite_sum(xx, yy);
    crate::fields::lemma_add_swap_middle(xx, xx, xx.opposite(), yy.opposite());
    F::law_add_opposite(xx);
    F::law_sub(xx, yy);
    F::law_add_comm(F::zero_el(), xx.plus(yy.opposite()));
    F::law_add_zero(xx.plus(yy.opposite()));
    F::law_canon_results(xx, yy.opposite());
}

pub proof fn lemma_gen_point_double_x(n: nat, k: nat)
    ensures
        double_x_iter(gen_point(n).x, k) == gen_point(pow2(k) * n).x,
    decreases k,
{
    if k == 0 {
        lemma2_to64();
        assert(pow2(0) * n == n);
    } else {
        let k1 = (k - 1) as nat;
        lemma_gen_point_double_x(n, k1);
        lemma_pow2_double(k);
        let m = pow2(k1) * n;
        assert(pow2(k) * n == m + m) by (nonlinear_arith)
            requires
                pow2(k) == 2 * pow2(k1),
                m == pow2(k1) * n,
        ;
        lemma_gen_point_add(m, m);
        lemma_gen_point_on_circle(m);
        lemma_double_x(gen_point(m));
    }
}

// ---------------------------------------------------------------------------------------------
// Indices and cosets.

/// The multiple of the generator that a point is, modulo the order of the group.
#[derive(Clone, Copy, Debug, PartialEq, Eq, Structural, Hash, PartialOrd, Ord)]
pub struct CirclePointIndex(pub usize);

impl CirclePointIndex {
    pub open spec fn wf(self) -> bool {
        self.0 < circle_order()
    }

    /// The point with this index.
    pub open spec fn point(self) -> CirclePoint<M31> {
        gen_point(self.0 as nat)
    }

    pub fn generator() -> (r: CirclePointIndex)
        ensures
            r == CirclePointIndex(1),
            r.wf(),
    {
        CirclePointIndex(1)
    }

    /// The index of a generator of the subgroup of order `2^log_size`.
    pub fn subgroup_gen(log_size: u32) -> (r: CirclePointIndex)
        requires
            log_size <= 31,
        ensures
            r.0 == subgroup_step(log_size as nat) % circle_order(),
            r.wf(),
    {
        proof {
            lemma_pow2_bound((31 - log_size) as nat);
            lemma2_to64();
            if log_size > 0 {
                lemma_pow2_le((31 - log_size) as nat, 30);
                lemma_small_mod(pow2((31 - log_size) as nat), circle_order());
            }
        }
        if log_size == 0 {
            CirclePointIndex(0)
        } else {
            CirclePointIndex(pow2_usize(31 - log_size))
        }
    }

    pub fn to_point(self) -> (r: CirclePoint<M31>)
        ensures
            r == self.point(),
    {
        m31_circle_gen().mul(self.0 as u128)
    }

    /// The sum of two indices.
    pub fn add(self, rhs: CirclePointIndex) -> (r: CirclePointIndex)
        requires
            self.wf(),
            rhs.wf(),
        ensures
            r.0 == (self.0 + rhs.0) % circle_order() as int,
            r.wf(),
    {
        CirclePointIndex(((self.0 as u64 + rhs.0 as u64) % 0x8000_0000u64) as usize)
    }

    /// The index of the inverse point.
    pub fn neg(self) -> (r: CirclePointIndex)
        requires
            self.wf(),
        ensures
            r.0 == (circle_order() - self.0) % circle_order() as int,
            r.wf(),
    {
        CirclePointIndex(((0x8000_0000u64 - self.0 as u64) % 0x8000_0000u64) as usize)
    }

    /// The `k`-fold multiple of an index.
    pub fn scale(self, k: usize) -> (r: CirclePointIndex)
        requires
            self.wf(),
            k <= 0x8000_0000,
        ensures
            r.0 == (self.0 * k) % circle_order() as int,
            r.wf(),
    {
        assert(self.0 * k <= 0x8000_0000 * 0x8000_0000) by (nonlinear_arith)
            requires
                0 <= self.0 <= 0x8000_0000,
                0 <= k <= 0x8000_0000,
        ;
        CirclePointIndex(((self.0 as u64 * k as u64) % 0x8000_0000u64) as usize)
    }

    /// Half of an even index.
    pub fn half(self) -> (r: CirclePointIndex)
        requires
            self.0 % 2 == 0,
        ensures
            r.0 == self.0 / 2,
    {
        CirclePointIndex(self.0 / 2)
    }
}

/// `2^(31 - log)`, the step between neighbours of a coset of size `2^log`.
pub open spec fn subgroup_step(log_size: nat) -> nat {
    pow2((31 - log_size) as nat)
}

/// The points `initial + k * step` for `k` below `2^log_size`, where the step generates the
/// subgroup of that size.
#[derive(Clone, Copy, Debug, PartialEq, Eq, Structural)]
pub struct Coset {
    pub initial_index: CirclePointIndex,
    pub initial: CirclePoint<M31>,
    pub step_size: CirclePointIndex,
    pub step: CirclePoint<M31>,
    pub log_size: u32,
}

impl Coset {
    pub open spec fn wf(self) -> bool {
        &&& self.log_size <= 31
        &&& self.initial_index.wf()
        &&& self.step_size.wf()
        &&& self.step_size.0 == subgroup_step(self.log_size as nat) % circle_order()
        &&& self.initial == self.initial_index.point()
        &&& self.step == self.step_size.point()
    }

    /// The number of points.
    pub open spec fn size_s(self) -> nat {
        pow2(self.log_size as nat)
    }

    /// The index of the `k`-th point, not reduced.
    pub open spec fn index_s(self, k: int) -> nat {
        (self.initial_index.0 + k * subgroup_step(self.log_size as nat)) as nat
    }

    /// The `k`-th point.
    pub open spec fn at_s(self, k: int) -> CirclePoint<M31> {
        gen_point(self.index_s(k))
    }

    /// The coset of the doubles of the points.
    pub open spec fn double_s(self) -> Coset {
        coset_s(
            (2 * self.initial_index.0) % circle_order() as int,
            (self.log_size - 1) as nat,
        )
    }

    /// The coset doubled `k` times.
    pub open spec fn repeated_double_s(self, k: nat) -> Coset {
        coset_s(
            (pow2(k) * self.initial_index.0) % circle_order() as int,
            (self.log_size - k) as nat,
        )
    }

    /// Whether this coset is `other` doubled some number of times.
    pub open spec fn doubling_of_s(self, other: Coset) -> bool {
        &&& self.log_size <= other.log_size
        &&& self == other.repeated_double_s((other.log_size - self.log_size) as nat)
    }

    pub fn new(initial_index: CirclePointIndex, log_size: u32) -> (r: Coset)
        requires
            initial_index.wf(),
            log_size <= 31,
        ensures
            r == coset_s(initial_index.0 as int, log_size as nat),
            r.wf(),
    {
        let step_size = CirclePointIndex::subgroup_gen(log_size);
        Coset {
            initial_index,
            initial: initial_index.to_point(),
            step_size,
            step: step_size.to_point(),
            log_size,
        }
    }

    /// The subgroup of size `2^log_size`.
    pub fn subgroup(log_size: u32) -> (r: Coset)
        requires
            log_size <= 31,
        ensures
            r == coset_s(0, log_size as nat),
            r.wf(),
    {
        Coset::new(CirclePointIndex(0), log_size)
    }

    /// The odd multiples of the generator of the next larger subgroup.
    pub fn odds(log_size: u32) -> (r: Coset)
        requires
            log_size <= 30,
        ensures
            r == coset_s(subgroup_step((log_size + 1) as nat) as int, log_size as nat),
            r.wf(),
    {
        proof {
            lemma_step_small((log_size + 1) as nat);
        }
        Coset::new(CirclePointIndex::subgroup_gen(log_size + 1), log_size)
    }

    /// Half of [`Coset::odds`] of the next larger size, closed under no reflection.
    pub fn half_odds(log_size: u32) -> (r: Coset)
        requires
            log_size <= 29,
        ensures
            r == coset_s(subgroup_step((log_size + 2) as nat) as int, log_size as nat),
            r.wf(),
    {
        proof {
            lemma_step_small((log_size + 2) as nat);
        }
        Coset::new(CirclePointIndex::subgroup_gen(log_size + 2), log_size)
    }

    pub fn size(&self) -> (r: usize)
        requires
            self.wf(),
        ensures
            r == self.size_s(),
    {
        pow2_usize(self.log_size)
    }

    pub fn log_size(&self) -> (r: u32)
        ensures
            r == self.log_size,
    {
        self.log_size
    }

    /// The index of the `k`-th point.
    pub fn index_at(&self, k: usize) -> (r: CirclePointIndex)
        requires
            self.wf(),
            k <= 0x8000_0000,
        ensures
            r.0 == self.index_s(k as int) % circle_order(),
            r.wf(),
            r.point() == self.at_s(k as int),
    {
        let r = self.initial_index.add(self.step_size.scale(k));
        proof {
            let n = circle_order() as int;
            let a = self.initial_index.0 as int;
            let s = subgroup_step(self.log_size as nat) as int;
            lemma_mul_is_commutative(s, k as int);
            vstd::arithmetic::div_mod::lemma_mul_mod_noop_left(s, k as int, n);
            vstd::arithmetic::div_mod::lemma_add_mod_noop_right(a, s * k, n);
            assert(s * k >= 0) by (nonlinear_arith)
                requires
                    s >= 0,
                    k >= 0,
            ;
            lemma_gen_point_mod(self.index_s(k as int));
        }
        r
    }

    /// The `k`-th point.
    pub fn at(&self, k: usize) -> (r: CirclePoint<M31>)
        requires
            self.wf(),
            k <= 0x8000_0000,
        ensures
            r == self.at_s(k as int),
    {
        self.index_at(k).to_point()
    }

    /// The coset of the doubles of the points.
    pub fn double(&self) -> (r: Coset)
        requires
            self.wf(),
            self.log_size > 0,
        ensures
            r == self.double_s(),
            r.wf(),
    {
        Coset::new(self.initial_index.scale(2), self.log_size - 1)
    }

    /// The coset doubled `k` times.
    pub fn repeated_double(&self, k: u32) -> (r: Coset)
        requires
            self.wf(),
            k <= self.log_size,
        ensures
            r == self.repeated_double_s(k as nat),
            r.wf(),
    {
        let f = pow2_usize(k);
        proof {
            lemma_pow2_bound(k as nat);
            lemma_mul_is_commutative(f as int, self.initial_index.0 as int);
        }
        Coset::new(self.initial_index.scale(f), self.log_size - k)
    }

    /// Whether this coset is `other` doubled some number of times.
    pub fn is_doubling_of(&self, other: Coset) -> (r: bool)
        requires
            self.wf(),
            other.wf(),
        ensures
            r == self.doubling_of_s(other),
    {
        if self.log_size <= other.log_size {
            let d = other.repeated_double(other.log_size - self.log_size);
            d.initial_index.0 == self.initial_index.0
        } else {
            false
        }
    }

    /// The coset moved by a point.
    pub fn shift(&self, by: CirclePointIndex) -> (r: Coset)
        requires
            self.wf(),
            by.wf(),
        ensures
            r == coset_s(
                (self.initial_index.0 + by.0) % circle_order() as int,
                self.log_size as nat,
            ),
            r.wf(),
    {
        Coset::new(self.initial_index.add(by), self.log_size)
    }
}

/// The coset with the given initial index and size.
pub open spec fn coset_s(initial: int, log_size: nat) -> Coset {
    let step = subgroup_step(log_size) % circle_order();
    Coset {
        initial_index: CirclePointIndex(initial as usize),
        initial: gen_point(initial as nat),
        step_size: CirclePointIndex(step as usize),
        step: gen_point(step),
        log_size: log_size as u32,
    }
}

pub proof fn lemma_step_small(log_size: nat)
    requires
        0 < log_size <= 31,
    ensures
        0 < subgroup_step(log_size) < circle_order(),
        subgroup_step(log_size) % circle_order() == subgroup_step(log_size),
        subgroup_step(log_size) * pow2(log_size) == circle_order(),
{
    lemma2_to64();
    lemma_pow2_le((31 - log_size) as nat, 30);
    lemma_small_mod(subgroup_step(log_size), circle_order());
    lemma_pow2_adds((31 - log_size) as nat, log_size);
}

pub proof fn lemma_step_times_size(log_size: nat)
    requires
        log_size <= 31,
    ensures
        subgroup_step(log_size) * pow2(log_size) == circle_order(),
{
    lemma2_to64();
    lemma_pow2_adds((31 - log_size) as nat, log_size);
}

/// A well-formed coset is the one that its initial index and size name.
pub proof fn lemma_coset_canonical(c: Coset)
    requires
        c.wf(),
    ensures
        c == coset_s(c.initial_index.0 as int, c.log_size as nat),
{
}

} // verus!
