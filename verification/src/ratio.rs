//! The element type of the library: an exact fraction of two 64-bit integers.
//!
//! Gradient accumulation is specified exactly (`1/3` is `1/3`, not a rounded
//! value), so the element type is a fraction rather than a machine float.
//! Every operation is total: when a result would leave the representable
//! range, it saturates to the largest or smallest representable value, and the
//! specification functions below say exactly when that happens.

use vstd::prelude::*;

verus! {

/// An exact fraction `num / den` with `den >= 1`.
#[derive(Clone, Copy, Debug)]
pub struct Ratio {
    num: i64,
    den: i64,
}

impl Ratio {
    /// Every `Ratio` ever constructed has a positive denominator.
    #[verifier::type_invariant]
    pub closed spec fn wf(self) -> bool {
        self.den >= 1
    }

    /// The numerator, as a mathematical integer.
    pub closed spec fn n(self) -> int {
        self.num as int
    }

    /// The denominator, as a mathematical integer.
    pub closed spec fn d(self) -> int {
        self.den as int
    }

    /// Two fractions stand for the same rational number.
    pub open spec fn same_value(self, other: Ratio) -> bool {
        self.n() * other.d() == other.n() * self.d()
    }

    pub open spec fn spec_zero() -> Ratio {
        Ratio::spec_new(0, 1)
    }

    pub open spec fn spec_one() -> Ratio {
        Ratio::spec_new(1, 1)
    }

    pub closed spec fn spec_new(num: i64, den: i64) -> Ratio {
        Ratio { num, den }
    }

    pub proof fn lemma_new_parts(num: i64, den: i64)
        ensures
            Ratio::spec_new(num, den).n() == num as int,
            Ratio::spec_new(num, den).d() == den as int,
    {
    }

    /// Builds `num / den`. The denominator must be positive; a negative
    /// fraction carries its sign in the numerator.
    pub fn new(num: i64, den: i64) -> (r: Ratio)
        requires
            den >= 1,
        ensures
            r == Ratio::spec_new(num, den),
    {
        Ratio { num, den }
    }

    pub fn zero() -> (r: Ratio)
        ensures
            r == Ratio::spec_zero(),
    {
        Ratio { num: 0, den: 1 }
    }

    pub fn one() -> (r: Ratio)
        ensures
            r == Ratio::spec_one(),
    {
        Ratio { num: 1, den: 1 }
    }

    /// The numerator, for callers bridging to other number systems.
    pub fn numerator(&self) -> (r: i64)
        ensures
            r as int == self.n(),
    {
        self.num
    }

    /// The denominator, for callers bridging to other number systems.
    pub fn denominator(&self) -> (r: i64)
        ensures
            r as int == self.d(),
            r >= 1,
    {
        proof {
            use_type_invariant(*self);
        }
        self.den
    }

    pub fn from_int(num: i64) -> (r: Ratio)
        ensures
            r == Ratio::spec_new(num, 1),
    {
        Ratio { num, den: 1 }
    }

    /// Whether the mathematical fraction `num / den` (denominator positive)
    /// is representable without saturation.
    pub open spec fn fits(num: int, den: int) -> bool {
        &&& i64::MIN <= num <= i64::MAX
        &&& 1 <= den <= i64::MAX
    }

    /// What an operation returns when its exact result `num / den` leaves the
    /// representable range: the nearest representable extreme.
    pub closed spec fn spec_saturate(num: int, den: int) -> Ratio {
        if num > i64::MAX || (den > i64::MAX && num > 0) {
            Ratio { num: i64::MAX, den: 1 }
        } else if num < i64::MIN || (den > i64::MAX && num < 0) {
            Ratio { num: i64::MIN, den: 1 }
        } else {
            // den > i64::MAX and num == 0: an overlarge denominator under a
            // zero numerator still stands for zero.
            Ratio { num: 0, den: 1 }
        }
    }

    /// The exact fraction `num / den` when it fits, else the saturated extreme.
    pub open spec fn spec_clamped(num: int, den: int) -> Ratio
        recommends
            den >= 1,
    {
        if Ratio::fits(num, den) {
            Ratio::spec_new(num as i64, den as i64)
        } else {
            Ratio::spec_saturate(num, den)
        }
    }

    /// Exact addition: `a/b + c/d == (a*d + c*b) / (b*d)`, saturated if the
    /// cross products leave the range.
    pub open spec fn spec_add(self, other: Ratio) -> Ratio {
        Ratio::spec_clamped(
            self.n() * other.d() + other.n() * self.d(),
            self.d() * other.d(),
        )
    }

    /// Exact subtraction, saturated at the range edge.
    pub open spec fn spec_sub(self, other: Ratio) -> Ratio {
        Ratio::spec_clamped(
            self.n() * other.d() - other.n() * self.d(),
            self.d() * other.d(),
        )
    }

    /// Exact multiplication, saturated at the range edge.
    pub open spec fn spec_mul(self, other: Ratio) -> Ratio {
        Ratio::spec_clamped(self.n() * other.n(), self.d() * other.d())
    }

    /// `self <= other` as rational numbers.
    pub open spec fn spec_le(self, other: Ratio) -> bool {
        self.n() * other.d() <= other.n() * self.d()
    }

    /// A numerator times a positive denominator stays well inside `i128`.
    proof fn lemma_num_times_den(a: int, d: int)
        by (nonlinear_arith)
        requires
            i64::MIN <= a <= i64::MAX,
            1 <= d <= i64::MAX,
        ensures
            -0x3fff_ffff_ffff_ffff_8000_0000_0000_0000 <= a * d
                <= 0x3fff_ffff_ffff_ffff_8000_0000_0000_0000,
    {
    }

    /// A product of two numerators fits in `i128`.
    proof fn lemma_num_times_num(a: int, b: int)
        by (nonlinear_arith)
        requires
            i64::MIN <= a <= i64::MAX,
            i64::MIN <= b <= i64::MAX,
        ensures
            -0x4000_0000_0000_0000_0000_0000_0000_0000 <= a * b
                <= 0x4000_0000_0000_0000_0000_0000_0000_0000,
    {
    }

    /// A product of two positive denominators is a positive `i128` value.
    proof fn lemma_den_times_den(a: int, b: int)
        by (nonlinear_arith)
        requires
            1 <= a <= i64::MAX,
            1 <= b <= i64::MAX,
        ensures
            1 <= a * b <= 0x4000_0000_0000_0000_0000_0000_0000_0000,
    {
    }

    fn clamped(num: i128, den: i128) -> (r: Ratio)
        requires
            1 <= den,
        ensures
            r == Ratio::spec_clamped(num as int, den as int),
    {
        if num <= i64::MAX as i128 && num >= i64::MIN as i128 && den <= i64::MAX as i128 {
            Ratio { num: num as i64, den: den as i64 }
        } else if num > i64::MAX as i128 || (den > i64::MAX as i128 && num > 0) {
            Ratio { num: i64::MAX, den: 1 }
        } else if num < i64::MIN as i128 || (den > i64::MAX as i128 && num < 0) {
            Ratio { num: i64::MIN, den: 1 }
        } else {
            Ratio { num: 0, den: 1 }
        }
    }

    pub fn add(self, other: Ratio) -> (r: Ratio)
        ensures
            r == self.spec_add(other),
    {
        proof {
            use_type_invariant(self);
            use_type_invariant(other);
            Ratio::lemma_num_times_den(self.num as int, other.den as int);
            Ratio::lemma_num_times_den(other.num as int, self.den as int);
            Ratio::lemma_den_times_den(self.den as int, other.den as int);
        }
        let num: i128 = (self.num as i128) * (other.den as i128)
            + (other.num as i128) * (self.den as i128);
        let den: i128 = (self.den as i128) * (other.den as i128);
        Ratio::clamped(num, den)
    }

    pub fn sub(self, other: Ratio) -> (r: Ratio)
        ensures
            r == self.spec_sub(other),
    {
        proof {
            use_type_invariant(self);
            use_type_invariant(other);
            Ratio::lemma_num_times_den(self.num as int, other.den as int);
            Ratio::lemma_num_times_den(other.num as int, self.den as int);
            Ratio::lemma_den_times_den(self.den as int, other.den as int);
        }
        let num: i128 = (self.num as i128) * (other.den as i128)
            - (other.num as i128) * (self.den as i128);
        let den: i128 = (self.den as i128) * (other.den as i128);
        Ratio::clamped(num, den)
    }

    pub fn mul(self, other: Ratio) -> (r: Ratio)
        ensures
            r == self.spec_mul(other),
    {
        proof {
            use_type_invariant(self);
            use_type_invariant(other);
            Ratio::lemma_num_times_num(self.num as int, other.num as int);
            Ratio::lemma_den_times_den(self.den as int, other.den as int);
        }
        let num: i128 = (self.num as i128) * (other.num as i128);
        let den: i128 = (self.den as i128) * (other.den as i128);
        Ratio::clamped(num, den)
    }

    pub fn le(self, other: Ratio) -> (r: bool)
        ensures
            r == self.spec_le(other),
    {
        proof {
            use_type_invariant(self);
            use_type_invariant(other);
            Ratio::lemma_num_times_den(self.num as int, other.den as int);
            Ratio::lemma_num_times_den(other.num as int, self.den as int);
        }
        (self.num as i128) * (other.den as i128) <= (other.num as i128) * (self.den as i128)
    }

    /// Adding zero on the left gives the value back, representation and
    /// all.
    pub proof fn lemma_zero_add(x: Ratio)
        requires
            x.wf(),
        ensures
            Ratio::spec_zero().spec_add(x) == x,
    {
        let z = Ratio::spec_zero();
        let zn = z.n();
        let xd = x.d();
        assert(zn == 0);
        assert(zn * xd == 0) by (nonlinear_arith)
            requires
                zn == 0,
        {
        }
        assert(x.n() * z.d() == x.n());
        assert(z.d() * x.d() == x.d());
        assert(Ratio::fits(x.n(), x.d()));
    }

    /// Addition of fractions does not care about operand order, saturation
    /// included: the half of a reduction's order-independence that holds
    /// without any side condition.
    pub proof fn lemma_add_commutes(a: Ratio, b: Ratio)
        ensures
            a.spec_add(b) == b.spec_add(a),
    {
        assert(a.n() * b.d() + b.n() * a.d() == b.n() * a.d() + a.n() * b.d());
        assert(a.d() * b.d() == b.d() * a.d()) by (nonlinear_arith);
    }

    /// Away from the saturation edge, addition of fractions regroups
    /// freely: together with [`Ratio::lemma_add_commutes`] this is why an
    /// additive reduction's value does not depend on visitation order, as
    /// long as no intermediate result saturates. At the representable
    /// extremes the law genuinely fails, as it would under rounding floats.
    pub proof fn lemma_add_associates(a: Ratio, b: Ratio, c: Ratio)
        requires
            a.wf(),
            b.wf(),
            c.wf(),
            Ratio::fits(a.n() * b.d() + b.n() * a.d(), a.d() * b.d()),
            Ratio::fits(b.n() * c.d() + c.n() * b.d(), b.d() * c.d()),
        ensures
            a.spec_add(b).spec_add(c) == a.spec_add(b.spec_add(c)),
    {
        let nab = a.n() * b.d() + b.n() * a.d();
        let dab = a.d() * b.d();
        let ab = a.spec_add(b);
        assert(ab == Ratio::spec_new(nab as i64, dab as i64));
        assert(ab.n() == nab && ab.d() == dab);
        let nbc = b.n() * c.d() + c.n() * b.d();
        let dbc = b.d() * c.d();
        let bc = b.spec_add(c);
        assert(bc == Ratio::spec_new(nbc as i64, dbc as i64));
        assert(bc.n() == nbc && bc.d() == dbc);
        let an = a.n();
        let ad = a.d();
        let bn = b.n();
        let bd = b.d();
        let cn = c.n();
        let cd = c.d();
        assert(nab * cd + cn * dab == an * dbc + nbc * ad && dab * cd == ad * dbc)
            by (nonlinear_arith)
            requires
                nab == an * bd + bn * ad,
                dab == ad * bd,
                nbc == bn * cd + cn * bd,
                dbc == bd * cd,
        {
        }
    }

    /// Two successive contributions to a running sum can swap places when
    /// neither grouping saturates: the adjacent-transposition step behind a
    /// reduction's order-independence, since every permutation is a chain
    /// of adjacent swaps.
    pub proof fn lemma_add_exchange(p: Ratio, x: Ratio, y: Ratio)
        requires
            p.wf(),
            x.wf(),
            y.wf(),
            Ratio::fits(p.n() * x.d() + x.n() * p.d(), p.d() * x.d()),
            Ratio::fits(p.n() * y.d() + y.n() * p.d(), p.d() * y.d()),
            Ratio::fits(x.n() * y.d() + y.n() * x.d(), x.d() * y.d()),
        ensures
            p.spec_add(x).spec_add(y) == p.spec_add(y).spec_add(x),
    {
        assert(y.n() * x.d() + x.n() * y.d() == x.n() * y.d() + y.n() * x.d());
        assert(y.d() * x.d() == x.d() * y.d()) by (nonlinear_arith);
        Ratio::lemma_add_associates(p, x, y);
        Ratio::lemma_add_commutes(x, y);
        Ratio::lemma_add_associates(p, y, x);
    }

    /// The reciprocal of a positive value; anything else gives one, so the
    /// result is always a usable scale factor.
    pub closed spec fn spec_recip_or_one(self) -> Ratio {
        if self.num >= 1 {
            Ratio { num: self.den, den: self.num }
        } else {
            Ratio::spec_one()
        }
    }

    /// The reciprocal, for callers; see [`Ratio::spec_recip_or_one`].
    pub fn recip_or_one(self) -> (r: Ratio)
        ensures
            r == self.spec_recip_or_one(),
    {
        proof {
            use_type_invariant(self);
        }
        if self.num >= 1 {
            Ratio { num: self.den, den: self.num }
        } else {
            Ratio::one()
        }
    }

    /// The larger of the two, as rational numbers.
    pub open spec fn spec_max(self, other: Ratio) -> Ratio {
        if self.spec_le(other) {
            other
        } else {
            self
        }
    }

    /// The smaller of the two, as rational numbers.
    pub open spec fn spec_min(self, other: Ratio) -> Ratio {
        if other.spec_le(self) {
            other
        } else {
            self
        }
    }

    pub fn max(self, other: Ratio) -> (r: Ratio)
        ensures
            r == self.spec_max(other),
    {
        if self.le(other) {
            other
        } else {
            self
        }
    }

    pub fn min(self, other: Ratio) -> (r: Ratio)
        ensures
            r == self.spec_min(other),
    {
        if other.le(self) {
            other
        } else {
            self
        }
    }

    /// The least representable value; the identity that a running maximum
    /// starts from.
    pub fn most_negative() -> (r: Ratio)
        ensures
            r == Ratio::spec_new(i64::MIN, 1),
    {
        Ratio { num: i64::MIN, den: 1 }
    }

    /// The greatest representable value; the identity that a running minimum
    /// starts from.
    pub fn most_positive() -> (r: Ratio)
        ensures
            r == Ratio::spec_new(i64::MAX, 1),
    {
        Ratio { num: i64::MAX, den: 1 }
    }
}

impl PartialEq for Ratio {
    /// Equality of the rational values: `1/3 == 2/6`.
    fn eq(&self, other: &Ratio) -> (r: bool) {
        proof {
            use_type_invariant(*self);
            use_type_invariant(*other);
            Ratio::lemma_num_times_den(self.num as int, other.den as int);
            Ratio::lemma_num_times_den(other.num as int, self.den as int);
        }
        (self.num as i128) * (other.den as i128) == (other.num as i128) * (self.den as i128)
    }
}

impl vstd::std_specs::cmp::PartialEqSpecImpl for Ratio {
    open spec fn obeys_eq_spec() -> bool {
        true
    }

    open spec fn eq_spec(&self, other: &Ratio) -> bool {
        self.same_value(*other)
    }
}

} // verus!
