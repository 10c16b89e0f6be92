//! Forward-mode automatic differentiation with dual numbers.
//!
//! A [`Dual<T, N>`] pairs a value with `N` first derivatives, one per independent variable;
//! arithmetic and the elementary functions propagate the derivatives by the chain rule.
use vstd::prelude::*;

use crate::scalar::Scalar;

verus! {

/// A dual number: a value together with `N` partial derivatives.
#[derive(Clone, Copy, Debug, PartialEq, Eq)]
pub struct Dual<T, const N: usize> {
    re: T,
    du: [T; N],
}

impl<T, const N: usize> View for Dual<T, N> {
    type V = (T, Seq<T>);

    /// The value and the derivative vector.
    closed spec fn view(&self) -> (T, Seq<T>) {
        (self.re, self.du@)
    }
}

impl<T: Scalar, const N: usize> Dual<T, N> {
    /// A constant: zero derivative in every direction.
    pub fn constant(re: T) -> (r: Self)
        ensures
            r@.0 == re,
            r@.1 == Seq::new(N as nat, |i: int| T::zero_spec()),
    {
        let r = Dual { re, du: [T::zero(); N] };
        assert(r@.1 =~= Seq::new(N as nat, |i: int| T::zero_spec()));
        r
    }

    /// An independent variable: value `re` with a unit derivative in direction `idx` (and no
    /// unit derivative at all when `idx >= N`).
    pub fn variable(re: T, idx: usize) -> (r: Self)
        ensures
            r@.0 == re,
            r@.1 == Seq::new(N as nat, |i: int| if i == idx { T::one_spec() } else { T::zero_spec() }),
    {
        let mut du = [T::zero(); N];
        if idx < N {
            du[idx] = T::one();
        }
        let r = Dual { re, du };
        assert(r@.1 =~= Seq::new(N as nat, |i: int| if i == idx { T::one_spec() } else { T::zero_spec() }));
        r
    }

    /// Construct from a value and an explicit derivative vector.
    pub fn new(re: T, du: [T; N]) -> (r: Self)
        ensures
            r@ == (re, du@),
    {
        Dual { re, du }
    }

    /// The primal value.
    pub fn re(&self) -> (r: T)
        ensures
            r == self@.0,
    {
        self.re
    }

    /// The derivative in direction `idx`, which must be below `N`.
    pub fn du(&self, idx: usize) -> (r: T)
        requires
            idx < N,
        ensures
            r == self@.1[idx as int],
    {
        self.du[idx]
    }

    /// The full derivative vector.
    pub fn deriv(&self) -> (r: &[T; N])
        ensures
            r@ == self@.1,
    {
        &self.du
    }

    /// Negation: `-re`, and each derivative negated.
    pub fn neg(self) -> (r: Dual<T, N>)
        ensures
            r@.0 == self@.0.negate_spec(),
            r@.1 == Seq::new(N as nat, |i: int| self@.1[i].negate_spec()),
    {
        let mut du = self.du;
        for i in 0..N
            invariant
                forall|k: int| 0 <= k < N ==> #[trigger] du[k] == if k < i { self.du[k].negate_spec() } else { self.du[k] },
        {
            du[i] = self.du[i].negate();
        }
        let r = Dual { re: self.re.negate(), du };
        assert(r@.1 =~= Seq::new(N as nat, |i: int| self@.1[i].negate_spec()));
        r
    }

    /// `sin`, with derivatives `du * cos(re)`.
    pub fn sin(self) -> (r: Dual<T, N>)
        ensures
            r@.0 == self@.0.sin_spec(),
            r@.1 == Seq::new(N as nat, |i: int| self@.1[i].times_spec(self@.0.cos_spec())),
    {
        let c = self.re.cos();
        let r = Dual { re: self.re.sin(), du: crate::linalg_fixed::scale_array(crate::linalg_fixed::BinOp::Times, &self.du, c) };
        assert(r@.1 =~= Seq::new(N as nat, |i: int| self@.1[i].times_spec(self@.0.cos_spec())));
        r
    }

    /// `cos`, with derivatives `(-du) * sin(re)`.
    pub fn cos(self) -> (r: Dual<T, N>)
        ensures
            r@.0 == self@.0.cos_spec(),
            r@.1 == Seq::new(N as nat, |i: int| self@.1[i].negate_spec().times_spec(self@.0.sin_spec())),
    {
        let s = self.re.sin();
        let mut du = self.du;
        for i in 0..N
            invariant
                s == self.re.sin_spec(),
                forall|k: int| 0 <= k < N ==> #[trigger] du[k] == if k < i { self.du[k].negate_spec().times_spec(s) } else { self.du[k] },
        {
            du[i] = self.du[i].negate().times(s);
        }
        let r = Dual { re: self.re.cos(), du };
        assert(r@.1 =~= Seq::new(N as nat, |i: int| self@.1[i].negate_spec().times_spec(self@.0.sin_spec())));
        r
    }

    /// `exp`, with derivatives `du * exp(re)`.
    pub fn exp(self) -> (r: Dual<T, N>)
        ensures
            r@.0 == self@.0.exp_spec(),
            r@.1 == Seq::new(N as nat, |i: int| self@.1[i].times_spec(self@.0.exp_spec())),
    {
        let e = self.re.exp();
        let r = Dual { re: e, du: crate::linalg_fixed::scale_array(crate::linalg_fixed::BinOp::Times, &self.du, e) };
        assert(r@.1 =~= Seq::new(N as nat, |i: int| self@.1[i].times_spec(self@.0.exp_spec())));
        r
    }

    /// `ln`, with derivatives `du / re`.
    pub fn ln(self) -> (r: Dual<T, N>)
        ensures
            r@.0 == self@.0.ln_spec(),
            r@.1 == Seq::new(N as nat, |i: int| self@.1[i].divide_spec(self@.0)),
    {
        let r = Dual { re: self.re.ln(), du: crate::linalg_fixed::scale_array(crate::linalg_fixed::BinOp::Divide, &self.du, self.re) };
        assert(r@.1 =~= Seq::new(N as nat, |i: int| self@.1[i].divide_spec(self@.0)));
        r
    }
}

/// The derivative of `a * b` in one direction: `a * db + b * da`.
pub open spec fn product_rule<T: Scalar>(a: T, da: T, b: T, db: T) -> T {
    a.times_spec(db).plus_spec(b.times_spec(da))
}

/// The derivative of `a / b` in one direction: `(da * b - a * db) / (b * b)`.
pub open spec fn quotient_rule<T: Scalar>(a: T, da: T, b: T, db: T) -> T {
    da.times_spec(b).minus_spec(a.times_spec(db)).divide_spec(b.times_spec(b))
}

impl<T: Scalar, const N: usize> vstd::std_specs::ops::AddSpecImpl for Dual<T, N> {
    open spec fn obeys_add_spec() -> bool {
        false
    }

    open spec fn add_req(self, rhs: Dual<T, N>) -> bool {
        true
    }

    open spec fn add_spec(self, rhs: Dual<T, N>) -> Dual<T, N> {
        arbitrary()
    }
}

impl<T: Scalar, const N: usize> core::ops::Add for Dual<T, N> {
    type Output = Dual<T, N>;

    /// Sum: values and derivatives add.
    fn add(self, rhs: Dual<T, N>) -> (r: Dual<T, N>)
        ensures
            r@.0 == self@.0.plus_spec(rhs@.0),
            r@.1 == Seq::new(N as nat, |i: int| self@.1[i].plus_spec(rhs@.1[i])),
    {
        let r = Dual {
            re: self.re.plus(rhs.re),
            du: crate::linalg_fixed::zip_array(crate::linalg_fixed::BinOp::Plus, &self.du, &rhs.du),
        };
        assert(r@.1 =~= Seq::new(N as nat, |i: int| self@.1[i].plus_spec(rhs@.1[i])));
        r
    }
}

impl<T: Scalar, const N: usize> vstd::std_specs::ops::SubSpecImpl for Dual<T, N> {
    open spec fn obeys_sub_spec() -> bool {
        false
    }

    open spec fn sub_req(self, rhs: Dual<T, N>) -> bool {
        true
    }

    open spec fn sub_spec(self, rhs: Dual<T, N>) -> Dual<T, N> {
        arbitrary()
    }
}

impl<T: Scalar, const N: usize> core::ops::Sub for Dual<T, N> {
    type Output = Dual<T, N>;

    /// Difference: values and derivatives subtract.
    fn sub(self, rhs: Dual<T, N>) -> (r: Dual<T, N>)
        ensures
            r@.0 == self@.0.minus_spec(rhs@.0),
            r@.1 == Seq::new(N as nat, |i: int| self@.1[i].minus_spec(rhs@.1[i])),
    {
        let r = Dual {
            re: self.re.minus(rhs.re),
            du: crate::linalg_fixed::zip_array(crate::linalg_fixed::BinOp::Minus, &self.du, &rhs.du),
        };
        assert(r@.1 =~= Seq::new(N as nat, |i: int| self@.1[i].minus_spec(rhs@.1[i])));
        r
    }
}

impl<T: Scalar, const N: usize> vstd::std_specs::ops::MulSpecImpl for Dual<T, N> {
    open spec fn obeys_mul_spec() -> bool {
        false
    }

    open spec fn mul_req(self, rhs: Dual<T, N>) -> bool {
        true
    }

    open spec fn mul_spec(self, rhs: Dual<T, N>) -> Dual<T, N> {
        arbitrary()
    }
}

impl<T: Scalar, const N: usize> core::ops::Mul for Dual<T, N> {
    type Output = Dual<T, N>;

    /// Product, with the product rule for the derivatives.
    fn mul(self, rhs: Dual<T, N>) -> (r: Dual<T, N>)
        ensures
            r@.0 == self@.0.times_spec(rhs@.0),
            r@.1 == Seq::new(N as nat, |i: int| product_rule(self@.0, self@.1[i], rhs@.0, rhs@.1[i])),
    {
        let mut du = self.du;
        for i in 0..N
            invariant
                forall|k: int| 0 <= k < N ==> #[trigger] du[k] == if k < i {
                    product_rule(self.re, self.du[k], rhs.re, rhs.du[k])
                } else {
                    self.du[k]
                },
        {
            du[i] = self.re.times(rhs.du[i]).plus(rhs.re.times(self.du[i]));
        }
        let r = Dual { re: self.re.times(rhs.re), du };
        assert(r@.1 =~= Seq::new(N as nat, |i: int| product_rule(self@.0, self@.1[i], rhs@.0, rhs@.1[i])));
        r
    }
}

impl<T: Scalar, const N: usize> vstd::std_specs::ops::DivSpecImpl for Dual<T, N> {
    open spec fn obeys_div_spec() -> bool {
        false
    }

    open spec fn div_req(self, rhs: Dual<T, N>) -> bool {
        true
    }

    open spec fn div_spec(self, rhs: Dual<T, N>) -> Dual<T, N> {
        arbitrary()
    }
}

impl<T: Scalar, const N: usize> core::ops::Div for Dual<T, N> {
    type Output = Dual<T, N>;

    /// Quotient, with the quotient rule for the derivatives.
    fn div(self, rhs: Dual<T, N>) -> (r: Dual<T, N>)
        ensures
            r@.0 == self@.0.divide_spec(rhs@.0),
            r@.1 == Seq::new(N as nat, |i: int| quotient_rule(self@.0, self@.1[i], rhs@.0, rhs@.1[i])),
    {
        let mut du = self.du;
        for i in 0..N
            invariant
                forall|k: int| 0 <= k < N ==> #[trigger] du[k] == if k < i {
                    quotient_rule(self.re, self.du[k], rhs.re, rhs.du[k])
                } else {
                    self.du[k]
                },
        {
            du[i] = self.du[i].times(rhs.re).minus(self.re.times(rhs.du[i])).divide(rhs.re.times(rhs.re));
        }
        let r = Dual { re: self.re.divide(rhs.re), du };
        assert(r@.1 =~= Seq::new(N as nat, |i: int| quotient_rule(self@.0, self@.1[i], rhs@.0, rhs@.1[i])));
        r
    }
}

} // verus!
