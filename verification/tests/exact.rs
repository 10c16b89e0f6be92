use num_rational::BigRational;
use num_traits::FromPrimitive;
use tpt_math::exact::{Bound, Interval};

/// An exact rational as an interval bound.
#[derive(Clone, Debug, PartialEq, Eq)]
struct Q(BigRational);

impl Bound for Q {
    fn duplicate(&self) -> Q {
        self.clone()
    }
    fn le(&self, other: &Q) -> bool {
        self.0 <= other.0
    }
    fn plus(&self, rhs: &Q) -> Q {
        Q(&self.0 + &rhs.0)
    }
    fn minus(&self, rhs: &Q) -> Q {
        Q(&self.0 - &rhs.0)
    }
    fn times(&self, rhs: &Q) -> Q {
        Q(&self.0 * &rhs.0)
    }
    fn divide(&self, rhs: &Q) -> Q {
        Q(&self.0 / &rhs.0)
    }
    fn from_u8(n: u8) -> Option<Q> {
        BigRational::from_u8(n).map(Q)
    }
    // The specification functions mirror the operations above.
    fn le_spec(&self, other: &Q) -> bool {
        Bound::le(self, other)
    }
    fn plus_spec(&self, rhs: &Q) -> Q {
        Bound::plus(self, rhs)
    }
    fn minus_spec(&self, rhs: &Q) -> Q {
        Bound::minus(self, rhs)
    }
    fn times_spec(&self, rhs: &Q) -> Q {
        Bound::times(self, rhs)
    }
    fn divide_spec(&self, rhs: &Q) -> Q {
        Bound::divide(self, rhs)
    }
    fn from_u8_spec(n: u8) -> Option<Q> {
        <Q as Bound>::from_u8(n)
    }
}

fn rat(n: i64) -> Q {
    Q(BigRational::new(n.into(), 1.into()))
}

fn iv(a: i64, b: i64) -> Interval<Q> {
    Interval::new(rat(a), rat(b))
}

#[test]
fn add_encloses() {
    let c = iv(1, 2) + iv(3, 4);
    assert_eq!(c.lo(), &rat(4));
    assert_eq!(c.hi(), &rat(6));
}

#[test]
fn mul_encloses_all_corners() {
    let c = iv(-1, 2) * iv(-3, 4);
    assert_eq!(c.lo(), &rat(-6));
    assert_eq!(c.hi(), &rat(8));
}

#[test]
fn contains_and_hull() {
    let a = iv(0, 5);
    assert!(a.contains(&rat(3)));
    assert!(!a.contains(&rat(6)));
    let b = iv(3, 10);
    let h = a.hull(&b);
    assert_eq!(h.lo(), &rat(0));
    assert_eq!(h.hi(), &rat(10));
}

#[test]
fn intersect() {
    let a = iv(0, 5);
    let b = iv(3, 10);
    assert_eq!(a.intersect(&b), Some(iv(3, 5)));
    assert_eq!(iv(0, 1).intersect(&iv(2, 3)), None);
}

#[test]
fn midpoint_and_width() {
    let a = iv(2, 4);
    assert_eq!(a.width(), rat(2));
    let m = a.midpoint();
    assert_eq!(m, rat(3));
}

#[test]
fn subtraction_and_reference_operators() {
    // [1, 2] - [3, 4] = [1 - 4, 2 - 3] = [-3, -1].
    let d = &iv(1, 2) - &iv(3, 4);
    assert_eq!(d.lo(), &rat(-3));
    assert_eq!(d.hi(), &rat(-1));
    let s = &iv(1, 2) + &iv(3, 4);
    assert_eq!(s, iv(4, 6));
    let p = &iv(-2, -1) * &iv(3, 5);
    assert_eq!(p, iv(-10, -3));
    assert_eq!(iv(1, 2).sub_interval(&iv(3, 4)), iv(-3, -1));
    assert_eq!(iv(1, 2).add_interval(&iv(3, 4)), iv(4, 6));
    assert_eq!(iv(-1, 2).mul_interval(&iv(-3, 4)), iv(-6, 8));
}

#[test]
fn points_and_touching_intervals() {
    assert!(iv(3, 3).is_point());
    assert!(!iv(3, 4).is_point());
    // Intervals sharing one endpoint intersect in that point.
    assert_eq!(iv(0, 2).intersect(&iv(2, 5)), Some(iv(2, 2)));
    let half = Interval::new(Q(BigRational::new(1.into(), 2.into())), rat(1));
    assert_eq!(half.midpoint(), Q(BigRational::new(3.into(), 4.into())));
    assert!(half.contains(&Q(BigRational::new(1.into(), 2.into()))));
}
