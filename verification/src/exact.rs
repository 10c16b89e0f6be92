//! Closed intervals `[lo, hi]` over an ordered arithmetic type, with the interval
//! arithmetic that encloses every pointwise result (exact when the bounds are exact
//! rationals).
use vstd::prelude::*;

verus! {

/// An ordered arithmetic type usable as an interval bound (an exact rational, for instance).
///
/// Each exec method returns exactly what its spec counterpart names; `le` is the type's total
/// order.
pub trait Bound: Sized {
    /// The order `self <= other`.
    spec fn le_spec(&self, other: &Self) -> bool;

    spec fn plus_spec(&self, rhs: &Self) -> Self;

    spec fn minus_spec(&self, rhs: &Self) -> Self;

    spec fn times_spec(&self, rhs: &Self) -> Self;

    spec fn divide_spec(&self, rhs: &Self) -> Self;

    /// The conversion of a small integer, when the type can hold it.
    spec fn from_u8_spec(n: u8) -> Option<Self>;

    /// A copy of the value.
    fn duplicate(&self) -> (r: Self)
        ensures
            r == *self,
    ;

    fn le(&self, other: &Self) -> (r: bool)
        ensures
            r == self.le_spec(other),
    ;

    fn plus(&self, rhs: &Self) -> (r: Self)
        ensures
            r == self.plus_spec(rhs),
    ;

    fn minus(&self, rhs: &Self) -> (r: Self)
        ensures
            r == self.minus_spec(rhs),
    ;

    fn times(&self, rhs: &Self) -> (r: Self)
        ensures
            r == self.times_spec(rhs),
    ;

    fn divide(&self, rhs: &Self) -> (r: Self)
        ensures
            r == self.divide_spec(rhs),
    ;

    fn from_u8(n: u8) -> (r: Option<Self>)
        ensures
            r == Self::from_u8_spec(n),
    ;
}

/// The smaller of `a` and `b` (`a` when they are ordered both ways).
pub open spec fn min_spec<T: Bound>(a: T, b: T) -> T {
    if a.le_spec(&b) {
        a
    } else {
        b
    }
}

/// The larger of `a` and `b` (`b` when they are ordered both ways).
pub open spec fn max_spec<T: Bound>(a: T, b: T) -> T {
    if a.le_spec(&b) {
        b
    } else {
        a
    }
}

/// Computes [`min_spec`].
fn min_bound<T: Bound>(a: T, b: T) -> (r: T)
    ensures
        r == min_spec(a, b),
{
    if a.le(&b) {
        a
    } else {
        b
    }
}

/// Computes [`max_spec`].
fn max_bound<T: Bound>(a: T, b: T) -> (r: T)
    ensures
        r == max_spec(a, b),
{
    if a.le(&b) {
        b
    } else {
        a
    }
}

/// A closed interval `[lo, hi]`; the endpoints are inclusive.
#[derive(Clone, Debug, PartialEq, Eq)]
pub struct Interval<T> {
    lo: T,
    hi: T,
}

impl<T> View for Interval<T> {
    type V = (T, T);

    /// The bounds `(lo, hi)`.
    closed spec fn view(&self) -> (T, T) {
        (self.lo, self.hi)
    }
}

impl<T: Bound> Interval<T> {
    /// Construct the interval `[lo, hi]`; the lower bound must not exceed the upper bound.
    pub fn new(lo: T, hi: T) -> (r: Self)
        requires
            lo.le_spec(&hi),
        ensures
            r@ == (lo, hi),
    {
        Interval { lo, hi }
    }

    /// The lower bound.
    pub fn lo(&self) -> (r: &T)
        ensures
            *r == self@.0,
    {
        &self.lo
    }

    /// The upper bound.
    pub fn hi(&self) -> (r: &T)
        ensures
            *r == self@.1,
    {
        &self.hi
    }

    /// `true` exactly when `lo <= x` and `x <= hi`.
    pub fn contains(&self, x: &T) -> (r: bool)
        ensures
            r == (self@.0.le_spec(x) && x.le_spec(&self@.1)),
    {
        self.lo.le(x) && x.le(&self.hi)
    }

    /// The smallest interval containing both: `[min(lo), max(hi)]`.
    pub fn hull(&self, other: &Interval<T>) -> (r: Interval<T>)
        ensures
            r@ == (min_spec(self@.0, other@.0), max_spec(self@.1, other@.1)),
    {
        let lo = min_bound(self.lo.duplicate(), other.lo.duplicate());
        let hi = max_bound(self.hi.duplicate(), other.hi.duplicate());
        Interval { lo, hi }
    }

    /// The overlap `[max(lo), min(hi)]`, or `None` when that lower bound exceeds that upper
    /// bound (the intervals are disjoint).
    pub fn intersect(&self, other: &Interval<T>) -> (r: Option<Interval<T>>)
        ensures
            r is Some <==> max_spec(self@.0, other@.0).le_spec(&min_spec(self@.1, other@.1)),
            r matches Some(i) ==> i@ == (max_spec(self@.0, other@.0), min_spec(self@.1, other@.1)),
    {
        let lo = max_bound(self.lo.duplicate(), other.lo.duplicate());
        let hi = min_bound(self.hi.duplicate(), other.hi.duplicate());
        if lo.le(&hi) {
            Some(Interval::new(lo, hi))
        } else {
            None
        }
    }

    /// `true` exactly when both bounds are ordered both ways (the interval is one point).
    pub fn is_point(&self) -> (r: bool)
        ensures
            r == (self@.0.le_spec(&self@.1) && self@.1.le_spec(&self@.0)),
    {
        self.lo.le(&self.hi) && self.hi.le(&self.lo)
    }

    /// The width `hi - lo`.
    pub fn width(&self) -> (r: T)
        ensures
            r == self@.1.minus_spec(&self@.0),
    {
        self.hi.minus(&self.lo)
    }

    /// The midpoint `(lo + hi) / 2`; the type must hold the integer two.
    pub fn midpoint(&self) -> (r: T)
        requires
            T::from_u8_spec(2) is Some,
        ensures
            r == self@.0.plus_spec(&self@.1).divide_spec(&T::from_u8_spec(2)->0),
    {
        let two = match T::from_u8(2) {
            Some(t) => t,
            None => {
                assert(false);
                return self.lo.duplicate();
            },
        };
        self.lo.plus(&self.hi).divide(&two)
    }
}

/// The enclosure of `a op b` for the four corner combinations: the least and the greatest
/// of `a.lo op b.lo`, `a.lo op b.hi`, `a.hi op b.lo`, `a.hi op b.hi`, each side taken as
/// `min(min(c0, c1), min(c2, c3))` and `max(max(c0, c1), max(c2, c3))`.
pub open spec fn corner_hull<T: Bound>(c0: T, c1: T, c2: T, c3: T) -> (T, T) {
    (min_spec(min_spec(c0, c1), min_spec(c2, c3)), max_spec(max_spec(c0, c1), max_spec(c2, c3)))
}

/// Builds the interval of [`corner_hull`].
fn corners<T: Bound>(c0: T, c1: T, c2: T, c3: T) -> (r: Interval<T>)
    ensures
        r@ == corner_hull(c0, c1, c2, c3),
{
    let lo = min_bound(min_bound(c0.duplicate(), c1.duplicate()), min_bound(c2.duplicate(), c3.duplicate()));
    let hi = max_bound(max_bound(c0, c1), max_bound(c2, c3));
    Interval { lo, hi }
}

impl<T: Bound> Interval<T> {
    /// Interval sum: the enclosure of the four corner sums.
    pub fn add_interval(&self, rhs: &Interval<T>) -> (r: Interval<T>)
        ensures
            r@ == corner_hull(
                self@.0.plus_spec(&rhs@.0),
                self@.0.plus_spec(&rhs@.1),
                self@.1.plus_spec(&rhs@.0),
                self@.1.plus_spec(&rhs@.1),
            ),
    {
        corners(self.lo.plus(&rhs.lo), self.lo.plus(&rhs.hi), self.hi.plus(&rhs.lo), self.hi.plus(&rhs.hi))
    }

    /// Interval difference: the enclosure of the four corner differences.
    pub fn sub_interval(&self, rhs: &Interval<T>) -> (r: Interval<T>)
        ensures
            r@ == corner_hull(
                self@.0.minus_spec(&rhs@.0),
                self@.0.minus_spec(&rhs@.1),
                self@.1.minus_spec(&rhs@.0),
                self@.1.minus_spec(&rhs@.1),
            ),
    {
        corners(self.lo.minus(&rhs.lo), self.lo.minus(&rhs.hi), self.hi.minus(&rhs.lo), self.hi.minus(&rhs.hi))
    }

    /// Interval product: the enclosure of the four corner products.
    pub fn mul_interval(&self, rhs: &Interval<T>) -> (r: Interval<T>)
        ensures
            r@ == corner_hull(
                self@.0.times_spec(&rhs@.0),
                self@.0.times_spec(&rhs@.1),
                self@.1.times_spec(&rhs@.0),
                self@.1.times_spec(&rhs@.1),
            ),
    {
        corners(self.lo.times(&rhs.lo), self.lo.times(&rhs.hi), self.hi.times(&rhs.lo), self.hi.times(&rhs.hi))
    }
}

// ===========================================================================
// Enclosure
// ===========================================================================

/// The closed interval with bounds `i` contains `x`: `i.0 <= x <= i.1`.
pub open spec fn encloses<T: Bound>(i: (T, T), x: T) -> bool {
    i.0.le_spec(&x) && x.le_spec(&i.1)
}

/// `le` is a total order: reflexive, transitive and total.
pub open spec fn order_laws<T: Bound>() -> bool {
    &&& forall|a: T| #[trigger] a.le_spec(&a)
    &&& forall|a: T, b: T, c: T| #![trigger a.le_spec(&b), b.le_spec(&c)] a.le_spec(&b) && b.le_spec(&c) ==> a.le_spec(&c)
    &&& forall|a: T, b: T| #![trigger a.le_spec(&b)] #![trigger b.le_spec(&a)] a.le_spec(&b) || b.le_spec(&a)
}

/// Addition is monotone in each argument.
pub open spec fn add_laws<T: Bound>() -> bool {
    &&& forall|a: T, b: T, c: T| #![trigger a.le_spec(&b), a.plus_spec(&c)] a.le_spec(&b) ==> a.plus_spec(&c).le_spec(&b.plus_spec(&c))
    &&& forall|a: T, b: T, c: T| #![trigger a.le_spec(&b), c.plus_spec(&a)] a.le_spec(&b) ==> c.plus_spec(&a).le_spec(&c.plus_spec(&b))
}

/// Subtraction is monotone in its first argument and antitone in its second.
pub open spec fn sub_laws<T: Bound>() -> bool {
    &&& forall|a: T, b: T, c: T| #![trigger a.le_spec(&b), a.minus_spec(&c)] a.le_spec(&b) ==> a.minus_spec(&c).le_spec(&b.minus_spec(&c))
    &&& forall|a: T, b: T, c: T| #![trigger a.le_spec(&b), c.minus_spec(&a)] a.le_spec(&b) ==> c.minus_spec(&b).le_spec(&c.minus_spec(&a))
}

/// Multiplication is commutative, monotone in its first argument for a non-negative second
/// argument and antitone for a non-positive one (zero being the converted `0`).
pub open spec fn mul_laws<T: Bound>() -> bool {
    &&& T::from_u8_spec(0) is Some
    &&& forall|a: T, b: T| #[trigger] a.times_spec(&b) == b.times_spec(&a)
    &&& forall|a: T, b: T, c: T|
        #![trigger a.le_spec(&b), a.times_spec(&c)]
        a.le_spec(&b) && (T::from_u8_spec(0)->0).le_spec(&c) ==> a.times_spec(&c).le_spec(&b.times_spec(&c))
    &&& forall|a: T, b: T, c: T|
        #![trigger a.le_spec(&b), a.times_spec(&c)]
        a.le_spec(&b) && c.le_spec(&(T::from_u8_spec(0)->0)) ==> b.times_spec(&c).le_spec(&a.times_spec(&c))
}

/// The smaller of two bounds is at most each, the larger at least each.
proof fn lemma_min_max<T: Bound>(a: T, b: T)
    requires
        order_laws::<T>(),
    ensures
        min_spec(a, b).le_spec(&a),
        min_spec(a, b).le_spec(&b),
        a.le_spec(&max_spec(a, b)),
        b.le_spec(&max_spec(a, b)),
{
    assert(a.le_spec(&a) && b.le_spec(&b));
    assert(a.le_spec(&b) || b.le_spec(&a));
}

/// The corner hull's lower bound is at most every corner, its upper bound at least every
/// corner.
proof fn lemma_corner_hull_bounds<T: Bound>(c0: T, c1: T, c2: T, c3: T)
    requires
        order_laws::<T>(),
    ensures
        encloses(corner_hull(c0, c1, c2, c3), c0),
        encloses(corner_hull(c0, c1, c2, c3), c1),
        encloses(corner_hull(c0, c1, c2, c3), c2),
        encloses(corner_hull(c0, c1, c2, c3), c3),
{
    lemma_min_max(c0, c1);
    lemma_min_max(c2, c3);
    lemma_min_max(min_spec(c0, c1), min_spec(c2, c3));
    lemma_min_max(max_spec(c0, c1), max_spec(c2, c3));
}

/// A value between two corners of the hull lies in the hull.
proof fn lemma_between_corners<T: Bound>(c0: T, c1: T, c2: T, c3: T, lo: T, v: T, hi: T)
    requires
        order_laws::<T>(),
        lo == c0 || lo == c1 || lo == c2 || lo == c3,
        hi == c0 || hi == c1 || hi == c2 || hi == c3,
        lo.le_spec(&v),
        v.le_spec(&hi),
    ensures
        encloses(corner_hull(c0, c1, c2, c3), v),
{
    lemma_corner_hull_bounds(c0, c1, c2, c3);
    let h = corner_hull(c0, c1, c2, c3);
    assert(h.0.le_spec(&lo) && lo.le_spec(&v));
    assert(v.le_spec(&hi) && hi.le_spec(&h.1));
}

/// Enclosure of the interval sum: for bounds with a total order and monotone addition, the
/// sum of points of two intervals lies in their interval sum (see
/// [`Interval::add_interval`]).
pub proof fn lemma_add_encloses<T: Bound>(a: (T, T), b: (T, T), x: T, y: T)
    requires
        order_laws::<T>(),
        add_laws::<T>(),
        encloses(a, x),
        encloses(b, y),
    ensures
        encloses(corner_hull(a.0.plus_spec(&b.0), a.0.plus_spec(&b.1), a.1.plus_spec(&b.0), a.1.plus_spec(&b.1)), x.plus_spec(&y)),
{
    assert(a.0.plus_spec(&b.0).le_spec(&x.plus_spec(&b.0)));
    assert(x.plus_spec(&b.0).le_spec(&x.plus_spec(&y)));
    assert(x.plus_spec(&y).le_spec(&a.1.plus_spec(&y)));
    assert(a.1.plus_spec(&y).le_spec(&a.1.plus_spec(&b.1)));
    lemma_between_corners(
        a.0.plus_spec(&b.0),
        a.0.plus_spec(&b.1),
        a.1.plus_spec(&b.0),
        a.1.plus_spec(&b.1),
        a.0.plus_spec(&b.0),
        x.plus_spec(&y),
        a.1.plus_spec(&b.1),
    );
}

/// Enclosure of the interval difference: for bounds with a total order and subtraction
/// monotone in its first argument and antitone in its second, the difference of points of
/// two intervals lies in their interval difference (see [`Interval::sub_interval`]).
pub proof fn lemma_sub_encloses<T: Bound>(a: (T, T), b: (T, T), x: T, y: T)
    requires
        order_laws::<T>(),
        sub_laws::<T>(),
        encloses(a, x),
        encloses(b, y),
    ensures
        encloses(corner_hull(a.0.minus_spec(&b.0), a.0.minus_spec(&b.1), a.1.minus_spec(&b.0), a.1.minus_spec(&b.1)), x.minus_spec(&y)),
{
    assert(a.0.minus_spec(&b.1).le_spec(&x.minus_spec(&b.1)));
    assert(x.minus_spec(&b.1).le_spec(&x.minus_spec(&y)));
    assert(x.minus_spec(&y).le_spec(&a.1.minus_spec(&y)));
    assert(a.1.minus_spec(&y).le_spec(&a.1.minus_spec(&b.0)));
    lemma_between_corners(
        a.0.minus_spec(&b.0),
        a.0.minus_spec(&b.1),
        a.1.minus_spec(&b.0),
        a.1.minus_spec(&b.1),
        a.0.minus_spec(&b.1),
        x.minus_spec(&y),
        a.1.minus_spec(&b.0),
    );
}

/// For `p` in `[q0, q1]`, the product `c * p` lies between `c * q0` and `c * q1` (in one
/// order or the other, by the sign of `c`).
proof fn lemma_scaled_between<T: Bound>(c: T, q0: T, p: T, q1: T)
    requires
        order_laws::<T>(),
        mul_laws::<T>(),
        q0.le_spec(&p),
        p.le_spec(&q1),
    ensures
        (c.times_spec(&q0).le_spec(&c.times_spec(&p)) && c.times_spec(&p).le_spec(&c.times_spec(&q1))) || (
        c.times_spec(&q1).le_spec(&c.times_spec(&p)) && c.times_spec(&p).le_spec(&c.times_spec(&q0))),
{
    let z = T::from_u8_spec(0)->0;
    assert(z.le_spec(&c) || c.le_spec(&z));
    assert(q0.times_spec(&c) == c.times_spec(&q0));
    assert(p.times_spec(&c) == c.times_spec(&p));
    assert(q1.times_spec(&c) == c.times_spec(&q1));
    assert(q0.times_spec(&c).le_spec(&p.times_spec(&c)) || p.times_spec(&c).le_spec(&q0.times_spec(&c)));
    assert(p.times_spec(&c).le_spec(&q1.times_spec(&c)) || q1.times_spec(&c).le_spec(&p.times_spec(&c)));
}

/// Enclosure of the interval product: for bounds with a total order and a commutative,
/// sign-monotone multiplication, the product of points of two intervals lies in their
/// interval product (see [`Interval::mul_interval`]).
pub proof fn lemma_mul_encloses<T: Bound>(a: (T, T), b: (T, T), x: T, y: T)
    requires
        order_laws::<T>(),
        mul_laws::<T>(),
        encloses(a, x),
        encloses(b, y),
    ensures
        encloses(corner_hull(a.0.times_spec(&b.0), a.0.times_spec(&b.1), a.1.times_spec(&b.0), a.1.times_spec(&b.1)), x.times_spec(&y)),
{
    let (c0, c1, c2, c3) = (a.0.times_spec(&b.0), a.0.times_spec(&b.1), a.1.times_spec(&b.0), a.1.times_spec(&b.1));
    // x * y lies between a0 * y and a1 * y; each of those lies between two corners.
    lemma_scaled_between(y, a.0, x, a.1);
    assert(y.times_spec(&a.0) == a.0.times_spec(&y));
    assert(y.times_spec(&x) == x.times_spec(&y));
    assert(y.times_spec(&a.1) == a.1.times_spec(&y));
    lemma_scaled_between(a.0, b.0, y, b.1);
    lemma_scaled_between(a.1, b.0, y, b.1);
    lemma_corner_hull_bounds(c0, c1, c2, c3);
    let h = corner_hull(c0, c1, c2, c3);
    let u0 = a.0.times_spec(&y);
    let u1 = a.1.times_spec(&y);
    assert(h.0.le_spec(&u0)) by {
        if c0.le_spec(&u0) {
            assert(h.0.le_spec(&c0));
        } else {
            assert(h.0.le_spec(&c1));
        }
    }
    assert(h.0.le_spec(&u1)) by {
        if c2.le_spec(&u1) {
            assert(h.0.le_spec(&c2));
        } else {
            assert(h.0.le_spec(&c3));
        }
    }
    assert(u0.le_spec(&h.1)) by {
        if u0.le_spec(&c0) {
            assert(c0.le_spec(&h.1));
        } else {
            assert(c1.le_spec(&h.1));
        }
    }
    assert(u1.le_spec(&h.1)) by {
        if u1.le_spec(&c2) {
            assert(c2.le_spec(&h.1));
        } else {
            assert(c3.le_spec(&h.1));
        }
    }
    let v = x.times_spec(&y);
    assert(h.0.le_spec(&v)) by {
        if u0.le_spec(&v) {
        } else {
            assert(u1.le_spec(&v));
        }
    }
    assert(v.le_spec(&h.1)) by {
        if v.le_spec(&u1) {
        } else {
            assert(v.le_spec(&u0));
        }
    }
}

impl<T: Bound> vstd::std_specs::ops::AddSpecImpl for Interval<T> {
    open spec fn obeys_add_spec() -> bool {
        false
    }

    open spec fn add_req(self, rhs: Interval<T>) -> bool {
        true
    }

    open spec fn add_spec(self, rhs: Interval<T>) -> Interval<T> {
        arbitrary()
    }
}

impl<T: Bound> core::ops::Add for Interval<T> {
    type Output = Interval<T>;

    /// The interval operation on owned intervals (see [`Interval::add_interval`]).
    fn add(self, rhs: Interval<T>) -> (r: Interval<T>)
        ensures
            r@ == corner_hull(
                self@.0.plus_spec(&rhs@.0),
                self@.0.plus_spec(&rhs@.1),
                self@.1.plus_spec(&rhs@.0),
                self@.1.plus_spec(&rhs@.1),
            ),
    {
        self.add_interval(&rhs)
    }
}

impl<'a, T: Bound> vstd::std_specs::ops::AddSpecImpl<&'a Interval<T>> for &'a Interval<T> {
    open spec fn obeys_add_spec() -> bool {
        false
    }

    open spec fn add_req(self, rhs: &'a Interval<T>) -> bool {
        true
    }

    open spec fn add_spec(self, rhs: &'a Interval<T>) -> Interval<T> {
        arbitrary()
    }
}

impl<'a, T: Bound> core::ops::Add<&'a Interval<T>> for &'a Interval<T> {
    type Output = Interval<T>;

    /// The interval operation on borrowed intervals (see [`Interval::add_interval`]).
    fn add(self, rhs: &'a Interval<T>) -> (r: Interval<T>)
        ensures
            r@ == corner_hull(
                self@.0.plus_spec(&rhs@.0),
                self@.0.plus_spec(&rhs@.1),
                self@.1.plus_spec(&rhs@.0),
                self@.1.plus_spec(&rhs@.1),
            ),
    {
        self.add_interval(rhs)
    }
}

impl<T: Bound> vstd::std_specs::ops::SubSpecImpl for Interval<T> {
    open spec fn obeys_sub_spec() -> bool {
        false
    }

    open spec fn sub_req(self, rhs: Interval<T>) -> bool {
        true
    }

    open spec fn sub_spec(self, rhs: Interval<T>) -> Interval<T> {
        arbitrary()
    }
}

impl<T: Bound> core::ops::Sub for Interval<T> {
    type Output = Interval<T>;

    /// The interval operation on owned intervals (see [`Interval::sub_interval`]).
    fn sub(self, rhs: Interval<T>) -> (r: Interval<T>)
        ensures
            r@ == corner_hull(
                self@.0.minus_spec(&rhs@.0),
                self@.0.minus_spec(&rhs@.1),
                self@.1.minus_spec(&rhs@.0),
                self@.1.minus_spec(&rhs@.1),
            ),
    {
        self.sub_interval(&rhs)
    }
}

impl<'a, T: Bound> vstd::std_specs::ops::SubSpecImpl<&'a Interval<T>> for &'a Interval<T> {
    open spec fn obeys_sub_spec() -> bool {
        false
    }

    open spec fn sub_req(self, rhs: &'a Interval<T>) -> bool {
        true
    }

    open spec fn sub_spec(self, rhs: &'a Interval<T>) -> Interval<T> {
        arbitrary()
    }
}

impl<'a, T: Bound> core::ops::Sub<&'a Interval<T>> for &'a Interval<T> {
    type Output = Interval<T>;

    /// The interval operation on borrowed intervals (see [`Interval::sub_interval`]).
    fn sub(self, rhs: &'a Interval<T>) -> (r: Interval<T>)
        ensures
            r@ == corner_hull(
                self@.0.minus_spec(&rhs@.0),
                self@.0.minus_spec(&rhs@.1),
                self@.1.minus_spec(&rhs@.0),
                self@.1.minus_spec(&rhs@.1),
            ),
    {
        self.sub_interval(rhs)
    }
}

impl<T: Bound> vstd::std_specs::ops::MulSpecImpl for Interval<T> {
    open spec fn obeys_mul_spec() -> bool {
        false
    }

    open spec fn mul_req(self, rhs: Interval<T>) -> bool {
        true
    }

    open spec fn mul_spec(self, rhs: Interval<T>) -> Interval<T> {
        arbitrary()
    }
}

impl<T: Bound> core::ops::Mul for Interval<T> {
    type Output = Interval<T>;

    /// The interval operation on owned intervals (see [`Interval::mul_interval`]).
    fn mul(self, rhs: Interval<T>) -> (r: Interval<T>)
        ensures
            r@ == corner_hull(
                self@.0.times_spec(&rhs@.0),
                self@.0.times_spec(&rhs@.1),
                self@.1.times_spec(&rhs@.0),
                self@.1.times_spec(&rhs@.1),
            ),
    {
        self.mul_interval(&rhs)
    }
}

impl<'a, T: Bound> vstd::std_specs::ops::MulSpecImpl<&'a Interval<T>> for &'a Interval<T> {
    open spec fn obeys_mul_spec() -> bool {
        false
    }

    open spec fn mul_req(self, rhs: &'a Interval<T>) -> bool {
        true
    }

    open spec fn mul_spec(self, rhs: &'a Interval<T>) -> Interval<T> {
        arbitrary()
    }
}

impl<'a, T: Bound> core::ops::Mul<&'a Interval<T>> for &'a Interval<T> {
    type Output = Interval<T>;

    /// The interval operation on borrowed intervals (see [`Interval::mul_interval`]).
    fn mul(self, rhs: &'a Interval<T>) -> (r: Interval<T>)
        ensures
            r@ == corner_hull(
                self@.0.times_spec(&rhs@.0),
                self@.0.times_spec(&rhs@.1),
                self@.1.times_spec(&rhs@.0),
                self@.1.times_spec(&rhs@.1),
            ),
    {
        self.mul_interval(rhs)
    }
}

} // verus!
