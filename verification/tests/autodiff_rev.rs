use tpt_math::autodiff::Dual;
use tpt_math::autodiff_rev::{Gradient, GradientTape, Op, Partials, Variable};
use tpt_math::scalar::Scalar;

/// An `f64` as a library scalar.
#[derive(Clone, Copy, Debug, PartialEq)]
struct F(f64);

impl Scalar for F {
    fn zero() -> F {
        F(0.0)
    }
    fn one() -> F {
        F(1.0)
    }
    fn from_int(n: i64) -> F {
        F(n as f64)
    }
    fn from_u64(n: u64) -> F {
        F(n as f64)
    }
    fn plus(self, rhs: F) -> F {
        F(self.0 + rhs.0)
    }
    fn minus(self, rhs: F) -> F {
        F(self.0 - rhs.0)
    }
    fn times(self, rhs: F) -> F {
        F(self.0 * rhs.0)
    }
    fn divide(self, rhs: F) -> F {
        F(self.0 / rhs.0)
    }
    fn negate(self) -> F {
        F(-self.0)
    }
    fn abs(self) -> F {
        F(self.0.abs())
    }
    fn sqrt(self) -> F {
        F(self.0.sqrt())
    }
    fn sin(self) -> F {
        F(self.0.sin())
    }
    fn cos(self) -> F {
        F(self.0.cos())
    }
    fn tan(self) -> F {
        F(self.0.tan())
    }
    fn acos(self) -> F {
        F(self.0.acos())
    }
    fn atan2(self, other: F) -> F {
        F(self.0.atan2(other.0))
    }
    fn exp(self) -> F {
        F(self.0.exp())
    }
    fn ln(self) -> F {
        F(self.0.ln())
    }
    fn lt(self, rhs: F) -> bool {
        self.0 < rhs.0
    }
    fn le(self, rhs: F) -> bool {
        self.0 <= rhs.0
    }
    fn eq(self, rhs: F) -> bool {
        self.0 == rhs.0
    }
    fn is_finite(self) -> bool {
        self.0.is_finite()
    }
    fn min(self, rhs: F) -> F {
        F(self.0.min(rhs.0))
    }
    fn max(self, rhs: F) -> F {
        F(self.0.max(rhs.0))
    }
    fn powi(self, n: i32) -> F {
        F(self.0.powi(n))
    }
    fn powf(self, p: F) -> F {
        F(self.0.powf(p.0))
    }
    fn floor(self) -> F {
        F(self.0.floor())
    }
    fn infinity() -> F {
        F(f64::INFINITY)
    }
    fn pi() -> F {
        F(std::f64::consts::PI)
    }
    fn e() -> F {
        F(std::f64::consts::E)
    }
    // The specification functions mirror the operations above.
    fn zero_spec() -> F {
        F::zero()
    }
    fn one_spec() -> F {
        F::one()
    }
    fn from_int_spec(n: i64) -> F {
        F::from_int(n)
    }
    fn from_u64_spec(n: u64) -> F {
        F::from_u64(n)
    }
    fn plus_spec(self, rhs: F) -> F {
        self.plus(rhs)
    }
    fn minus_spec(self, rhs: F) -> F {
        self.minus(rhs)
    }
    fn times_spec(self, rhs: F) -> F {
        self.times(rhs)
    }
    fn divide_spec(self, rhs: F) -> F {
        self.divide(rhs)
    }
    fn negate_spec(self) -> F {
        self.negate()
    }
    fn abs_spec(self) -> F {
        Scalar::abs(self)
    }
    fn sqrt_spec(self) -> F {
        Scalar::sqrt(self)
    }
    fn sin_spec(self) -> F {
        Scalar::sin(self)
    }
    fn cos_spec(self) -> F {
        Scalar::cos(self)
    }
    fn tan_spec(self) -> F {
        Scalar::tan(self)
    }
    fn acos_spec(self) -> F {
        Scalar::acos(self)
    }
    fn atan2_spec(self, other: F) -> F {
        Scalar::atan2(self, other)
    }
    fn exp_spec(self) -> F {
        Scalar::exp(self)
    }
    fn ln_spec(self) -> F {
        Scalar::ln(self)
    }
    fn lt_spec(self, rhs: F) -> bool {
        Scalar::lt(self, rhs)
    }
    fn le_spec(self, rhs: F) -> bool {
        Scalar::le(self, rhs)
    }
    fn eq_spec(self, rhs: F) -> bool {
        Scalar::eq(self, rhs)
    }
    fn is_finite_spec(self) -> bool {
        Scalar::is_finite(self)
    }
    fn min_spec(self, rhs: F) -> F {
        Scalar::min(self, rhs)
    }
    fn max_spec(self, rhs: F) -> F {
        Scalar::max(self, rhs)
    }
    fn powi_spec(self, n: i32) -> F {
        Scalar::powi(self, n)
    }
    fn powf_spec(self, p: F) -> F {
        Scalar::powf(self, p)
    }
    fn floor_spec(self) -> F {
        Scalar::floor(self)
    }
    fn infinity_spec() -> F {
        <F as Scalar>::infinity()
    }
    fn pi_spec() -> F {
        <F as Scalar>::pi()
    }
    fn e_spec() -> F {
        <F as Scalar>::e()
    }
}

const TOL: f64 = 1e-9;

fn assert_close(actual: f64, expected: f64) {
    assert!((actual - expected).abs() < TOL, "expected {expected}, got {actual} (delta {})", (actual - expected).abs());
}

fn close(a: f64, b: f64) -> bool {
    (a - b).abs() < TOL
}

type Tape = GradientTape<F>;
type Var = Variable<F>;

fn c(t: &mut Tape, v: f64) -> Var {
    t.constant(F(v))
}

fn grad(t: &Tape, out: Var, wrt: &[Var]) -> Vec<f64> {
    t.gradient(out, wrt).iter().map(|g| g.0).collect()
}

fn pairs(p: &Partials<F>) -> Vec<(usize, f64)> {
    p.as_slice().iter().map(|&(i, d)| (i, d.0)).collect()
}

/// Evaluates `f` on a fresh tape seeded with one input per entry and returns the value and
/// the gradient with respect to the inputs.
fn value_and_gradient(inputs: &[f64], f: impl FnOnce(&mut Tape, &[Var]) -> Var) -> (f64, Vec<f64>) {
    let mut tape = GradientTape::with_capacity(inputs.len() * 4);
    let xs: Vec<F> = inputs.iter().map(|&x| F(x)).collect();
    let vars = tape.vars(&xs);
    let output = f(&mut tape, &vars);
    let g = grad(&tape, output, &vars);
    (output.value().0, g)
}

// ---------------------------------------------------------------------------
// Local derivative rules
// ---------------------------------------------------------------------------

#[test]
fn leaves_have_no_partials() {
    assert!(Op::Const.diff(F(1.0), &[F(1.0)]).is_empty());
    assert!(Op::Input.diff(F(1.0), &[F(1.0)]).is_empty());
    assert!(Op::<F>::Input.is_leaf());
    assert!(Op::<F>::Const.is_const());
    assert!(!Op::<F>::Input.is_const());
}

#[test]
fn arithmetic_rules() {
    let values = [F(3.0), F(4.0)];
    assert_eq!(pairs(&Op::Add(0, 1).diff(F(7.0), &values)), vec![(0, 1.0), (1, 1.0)]);
    assert_eq!(pairs(&Op::Sub(0, 1).diff(F(-1.0), &values)), vec![(0, 1.0), (1, -1.0)]);
    assert_eq!(pairs(&Op::Mul(0, 1).diff(F(12.0), &values)), vec![(0, 4.0), (1, 3.0)]);
    assert_eq!(pairs(&Op::Neg(0).diff(F(-3.0), &values)), vec![(0, -1.0)]);

    let div = Op::Div(0, 1).diff(F(0.75), &values);
    assert!(close(div.as_slice()[0].1 .0, 1.0 / 4.0));
    assert!(close(div.as_slice()[1].1 .0, -3.0 / 16.0));
}

#[test]
fn transcendental_rules() {
    let x = 0.7_f64;
    let values = [F(x), F(0.0)];
    assert!(close(Op::Sin(0).diff(F(x.sin()), &values).as_slice()[0].1 .0, x.cos()));
    assert!(close(Op::Cos(0).diff(F(x.cos()), &values).as_slice()[0].1 .0, -x.sin()));
    assert!(close(Op::Tan(0).diff(F(x.tan()), &values).as_slice()[0].1 .0, 1.0 / (x.cos() * x.cos())));
    assert!(close(Op::Exp(0).diff(F(x.exp()), &values).as_slice()[0].1 .0, x.exp()));
    assert!(close(Op::Ln(0).diff(F(x.ln()), &values).as_slice()[0].1 .0, 1.0 / x));
    assert!(close(Op::Sqrt(0).diff(F(x.sqrt()), &values).as_slice()[0].1 .0, 0.5 / x.sqrt()));
}

#[test]
fn power_rules() {
    let x = 2.0_f64;
    let values = [F(x)];
    assert!(close(Op::Powi(0, 3).diff(F(x.powi(3)), &values).as_slice()[0].1 .0, 12.0));
    assert!(close(Op::Powi(0, 0).diff(F(1.0), &values).as_slice()[0].1 .0, 0.0));
    assert!(close(Op::Powf(0, F(0.5)).diff(F(x.sqrt()), &values).as_slice()[0].1 .0, 0.5 / x.sqrt()));
}

#[test]
fn partials_iteration() {
    let p = Partials::binary(1, F(2.0), 5, F(3.0));
    let collected: Vec<(usize, f64)> = p.iter().into_iter().map(|(i, d)| (i, d.0)).collect();
    assert_eq!(collected, vec![(1, 2.0), (5, 3.0)]);
    let by_ref: Vec<(usize, f64)> = pairs(&p);
    assert_eq!(by_ref, collected);
    assert_eq!(Partials::<F>::default(), Partials::none());
}

#[test]
fn partials_constructors_report_their_length() {
    let p = Partials::binary(0, F(1.0), 3, F(-1.0));
    assert_eq!(p.len(), 2);
    assert_eq!(pairs(&p), vec![(0, 1.0), (3, -1.0)]);
    assert!(Partials::<F>::none().is_empty());
    assert_eq!(Partials::unary(4, F(2.5)).len(), 1);
}

// ---------------------------------------------------------------------------
// The tape
// ---------------------------------------------------------------------------

#[test]
fn tape_records_nodes() {
    let mut tape = Tape::new();
    assert!(tape.is_empty());
    let x = tape.var(F(2.0));
    let _ = x.mul(x, &mut tape);
    assert_eq!(tape.len(), 2);
    assert_eq!(tape.op(0), Op::Input);
    assert_eq!(tape.op(1), Op::Mul(0, 0));
    assert_close(tape.value(1).0, 4.0);
    tape.clear();
    assert!(tape.is_empty());
}

#[test]
fn gradient_of_unrelated_variable_is_zero() {
    let mut tape = Tape::new();
    let x = tape.var(F(2.0));
    let y = tape.var(F(5.0));
    let z = x.mul(x, &mut tape);
    let g = grad(&tape, z, &[x, y]);
    assert_close(g[0], 4.0);
    assert_close(g[1], 0.0);
}

#[test]
fn constants_carry_no_gradient() {
    let mut tape = Tape::new();
    let x = tape.var(F(2.0));
    let k = c(&mut tape, 5.0);
    let xk = x.mul(k, &mut tape);
    let z = xk.add(k, &mut tape);
    let g = grad(&tape, z, &[x, k]);
    assert_close(z.value().0, 15.0);
    assert_close(g[0], 5.0);
    assert_close(g[1], 0.0);
}

#[test]
fn gradient_indexing_and_accessors() {
    let mut tape = Tape::new();
    let x = tape.var(F(1.5));
    let y = tape.var(F(-2.0));
    let xy = x.mul(y, &mut tape);
    let grad: Gradient<F> = tape.backward(xy);
    assert_close(grad.wrt(x).0, -2.0);
    assert_close(grad.wrt(y).0, 1.5);
    assert_eq!(grad.len(), tape.len());
    assert!(!grad.is_empty());
    assert_eq!(grad.as_slice().len(), tape.len());
    assert_eq!(grad.clone().into_vec(), grad.as_slice().to_vec());
}

#[test]
fn push_is_a_usable_extension_point() {
    let mut tape = Tape::new();
    let x = tape.var(F(0.25));
    // Hand-rolled `2 * x` built straight from tape primitives.
    let two = c(&mut tape, 2.0);
    let doubled = tape.push(Op::Mul(two.index(), x.index()), F(2.0 * x.value().0));
    assert_close(doubled.value().0, 0.5);
    assert_close(grad(&tape, doubled, &[x])[0], 2.0);
}

#[test]
fn variable_and_vars_record_inputs() {
    let mut tape = Tape::new();
    let a = tape.variable(F(1.0));
    let v = tape.vars(&[F(1.0), F(2.0), F(3.0)]);
    assert_eq!(a.index(), 0);
    assert_eq!(v.iter().map(|x| x.index()).collect::<Vec<_>>(), vec![1, 2, 3]);
    let s1 = v[0].add(v[1], &mut tape);
    let sum = s1.add(v[2], &mut tape);
    assert_eq!(grad(&tape, sum, &v), vec![1.0, 1.0, 1.0]);
    // Nodes recorded after the output get a zero adjoint.
    let later = tape.var(F(9.0));
    let g = tape.backward(s1);
    assert_eq!(g.wrt(later).0, 0.0);
}

// ---------------------------------------------------------------------------
// Variables
// ---------------------------------------------------------------------------

#[test]
fn scalar_operands_on_either_side() {
    let mut tape = Tape::new();
    let x = tape.var(F(4.0));
    let two = c(&mut tape, 2.0);
    let tx = two.mul(x, &mut tape);
    let one = c(&mut tape, 1.0);
    let a = tx.add(one, &mut tape); // 9
    let ten = c(&mut tape, 10.0);
    let b = ten.sub(x, &mut tape); // 6
    let twelve = c(&mut tape, 12.0);
    let cc = twelve.div(x, &mut tape); // 3
    let two_b = c(&mut tape, 2.0);
    let d = x.div(two_b, &mut tape); // 2
    assert_close(a.value().0, 9.0);
    assert_close(b.value().0, 6.0);
    assert_close(cc.value().0, 3.0);
    assert_close(d.value().0, 2.0);

    assert_close(grad(&tape, a, &[x])[0], 2.0);
    assert_close(grad(&tape, b, &[x])[0], -1.0);
    assert_close(grad(&tape, cc, &[x])[0], -12.0 / 16.0);
    assert_close(grad(&tape, d, &[x])[0], 0.5);
}

#[test]
fn negation_and_subtraction() {
    let mut tape = Tape::new();
    let x = tape.var(F(3.0));
    let y = tape.var(F(7.0));
    let nx = x.neg(&mut tape);
    let z = nx.sub(y, &mut tape);
    assert_close(z.value().0, -10.0);
    let g = grad(&tape, z, &[x, y]);
    assert_close(g[0], -1.0);
    assert_close(g[1], -1.0);
}

#[test]
fn assign_operators_accumulate_on_the_tape() {
    let mut tape = Tape::new();
    let xs = tape.vars(&[F(1.0), F(2.0), F(3.0)]);
    let mut acc = c(&mut tape, 0.0);
    for &x in &xs {
        let sq = x.mul(x, &mut tape);
        acc = acc.add(sq, &mut tape);
    }
    let two = c(&mut tape, 2.0);
    acc = acc.mul(two, &mut tape);
    // f = 2 * sum(x_i^2) => df/dx_i = 4 x_i
    assert_close(acc.value().0, 28.0);
    let g = grad(&tape, acc, &xs);
    assert_close(g[0], 4.0);
    assert_close(g[1], 8.0);
    assert_close(g[2], 12.0);
}

#[test]
fn recip_and_powf() {
    let mut tape = Tape::new();
    let x = tape.var(F(2.0));
    let r = x.recip(&mut tape);
    assert_close(r.value().0, 0.5);
    assert_close(grad(&tape, r, &[x])[0], -0.25);

    let p = x.powf(F(2.5), &mut tape);
    assert_close(p.value().0, 2.0_f64.powf(2.5));
    assert_close(grad(&tape, p, &[x])[0], 2.5 * 2.0_f64.powf(1.5));
}

#[test]
fn debug_and_display() {
    let mut tape = Tape::new();
    let x = tape.var(F(1.25));
    assert_eq!(x.value().0.to_string(), "1.25");
    assert!(format!("{x:?}").contains("index: 0"));
    assert_eq!(x.index(), 0);
    assert!(x.index() < tape.len());
}

// ---------------------------------------------------------------------------
// Whole expressions
// ---------------------------------------------------------------------------

/// f(x) = x^2 at x = 3 => f'(x) = 2x = 6.
#[test]
fn square_derivative() {
    let mut tape = Tape::new();
    let x = tape.var(F(3.0));
    let f = x.mul(x, &mut tape);
    let g = grad(&tape, f, &[x]);
    assert_close(f.value().0, 9.0);
    assert_close(g[0], 6.0);
}

/// f(x, y) = x*y + sin(x) at (2, 3).
#[test]
fn product_plus_sine_gradient() {
    let mut tape = Tape::new();
    let x = tape.var(F(2.0));
    let y = tape.var(F(3.0));
    let xy = x.mul(y, &mut tape);
    let sx = x.sin(&mut tape);
    let f = xy.add(sx, &mut tape);
    let g = grad(&tape, f, &[x, y]);

    assert_close(f.value().0, 6.0 + 2.0_f64.sin());
    assert_close(g[0], 3.0 + 2.0_f64.cos());
    assert_close(g[1], 2.0);
}

/// u = x*y, f = sin(u)*u + u: a shared subexpression.
#[test]
fn nested_shared_subexpression() {
    let mut tape = Tape::new();
    let (xv, yv) = (1.3_f64, 2.1_f64);
    let x = tape.var(F(xv));
    let y = tape.var(F(yv));

    let u = x.mul(y, &mut tape);
    let su = u.sin(&mut tape);
    let suu = su.mul(u, &mut tape);
    let f = suu.add(u, &mut tape);

    let uv = xv * yv;
    let df_du = uv * uv.cos() + uv.sin() + 1.0;

    let g = grad(&tape, f, &[x, y]);
    assert_close(f.value().0, uv.sin() * uv + uv);
    assert_close(g[0], yv * df_du);
    assert_close(g[1], xv * df_du);
}

/// ln(exp(x^2 + y)) is exactly x^2 + y.
#[test]
fn nested_inverse_functions_collapse() {
    let mut tape = Tape::new();
    let x = tape.var(F(0.7));
    let y = tape.var(F(-0.3));
    let x2 = x.powi(2, &mut tape);
    let s = x2.add(y, &mut tape);
    let e = s.exp(&mut tape);
    let f = e.ln(&mut tape);
    let g = grad(&tape, f, &[x, y]);

    assert_close(f.value().0, 0.7 * 0.7 - 0.3);
    assert_close(g[0], 1.4);
    assert_close(g[1], 1.0);
}

/// f = x^3 / y.
#[test]
fn quotient_and_power_gradient() {
    let mut tape = Tape::new();
    let (xv, yv) = (2.0_f64, 4.0_f64);
    let x = tape.var(F(xv));
    let y = tape.var(F(yv));
    let x3 = x.powi(3, &mut tape);
    let f = x3.div(y, &mut tape);
    let g = grad(&tape, f, &[x, y]);

    assert_close(f.value().0, 2.0);
    assert_close(g[0], 3.0 * xv * xv / yv);
    assert_close(g[1], -xv.powi(3) / (yv * yv));
}

/// f(x, y) = sin(x)*cos(y) + tan(x/4) + exp(x - y) + ln(x + 3) + sqrt(y) + x^3 + y^1.5 - x/y
fn build(tape: &mut Tape, x: Var, y: Var) -> Var {
    let sx = x.sin(tape);
    let cy = y.cos(tape);
    let t1 = sx.mul(cy, tape);
    let four = c(tape, 4.0);
    let x4 = x.div(four, tape);
    let t2 = x4.tan(tape);
    let xmy = x.sub(y, tape);
    let t3 = xmy.exp(tape);
    let three = c(tape, 3.0);
    let xp3 = x.add(three, tape);
    let t4 = xp3.ln(tape);
    let t5 = y.sqrt(tape);
    let t6 = x.powi(3, tape);
    let t7 = y.powf(F(1.5), tape);
    let t8 = x.div(y, tape);
    let s = t1.add(t2, tape);
    let s = s.add(t3, tape);
    let s = s.add(t4, tape);
    let s = s.add(t5, tape);
    let s = s.add(t6, tape);
    let s = s.add(t7, tape);
    s.sub(t8, tape)
}

#[test]
fn matches_central_finite_differences() {
    let (xv, yv) = (0.9_f64, 1.7_f64);
    let mut tape = Tape::new();
    let x = tape.var(F(xv));
    let y = tape.var(F(yv));
    let f = build(&mut tape, x, y);
    let g = grad(&tape, f, &[x, y]);

    let h = 1e-6;
    let fd = |dx: f64, dy: f64| {
        let mut t = Tape::new();
        let a = t.var(F(xv + dx));
        let b = t.var(F(yv + dy));
        build(&mut t, a, b).value().0
    };
    let fd_x = (fd(h, 0.0) - fd(-h, 0.0)) / (2.0 * h);
    let fd_y = (fd(0.0, h) - fd(0.0, -h)) / (2.0 * h);

    assert!((g[0] - fd_x).abs() < 1e-6, "d/dx: {} vs {fd_x}", g[0]);
    assert!((g[1] - fd_y).abs() < 1e-6, "d/dy: {} vs {fd_y}", g[1]);
}

/// Reverse mode agrees with the forward-mode dual numbers on the same function.
#[test]
fn agrees_with_forward_mode() {
    let (xv, yv) = (1.3_f64, 2.7_f64);

    // f = sin(x*y) + exp(x)/y - ln(x + y).
    let mut tape = Tape::new();
    let x = tape.var(F(xv));
    let y = tape.var(F(yv));
    let xy = x.mul(y, &mut tape);
    let s = xy.sin(&mut tape);
    let ex = x.exp(&mut tape);
    let q = ex.div(y, &mut tape);
    let xpy = x.add(y, &mut tape);
    let l = xpy.ln(&mut tape);
    let a = s.add(q, &mut tape);
    let f = a.sub(l, &mut tape);
    let rev = grad(&tape, f, &[x, y]);

    let dx = Dual::<F, 2>::variable(F(xv), 0);
    let dy = Dual::<F, 2>::variable(F(yv), 1);
    let df = (dx * dy).sin() + dx.exp() / dy - (dx + dy).ln();

    assert_close(f.value().0, df.re().0);
    assert_close(rev[0], df.du(0).0);
    assert_close(rev[1], df.du(1).0);
}

#[test]
fn value_and_gradient_helper() {
    let (value, g) = value_and_gradient(&[2.0, 3.0], |t, v| {
        let p = v[0].mul(v[1], t);
        let s = v[0].sin(t);
        p.add(s, t)
    });
    assert_close(value, 6.0 + 2.0_f64.sin());
    assert_close(g[0], 3.0 + 2.0_f64.cos());
    assert_close(g[1], 2.0);
}

/// f = sum_i (x_i^2 * sin(x_0)): the whole gradient from one backward pass.
#[test]
fn many_inputs_single_backward_pass() {
    let values: Vec<f64> = (1..=8).map(|i| f64::from(i) / 4.0).collect();
    let mut tape = Tape::new();
    let xs: Vec<F> = values.iter().map(|&v| F(v)).collect();
    let vars = tape.vars(&xs);

    let s = vars[0].sin(&mut tape);
    let mut f = c(&mut tape, 0.0);
    for &v in &vars {
        let vv = v.mul(v, &mut tape);
        let vvs = vv.mul(s, &mut tape);
        f = f.add(vvs, &mut tape);
    }

    let sum_sq: f64 = values.iter().map(|v| v * v).sum();
    let grad = tape.backward(f);

    for (i, (&v, var)) in values.iter().zip(vars.iter()).enumerate() {
        let mut expected = 2.0 * v * values[0].sin();
        if i == 0 {
            expected += sum_sq * values[0].cos();
        }
        assert_close(grad.wrt(*var).0, expected);
    }
}

/// The tape drives gradient descent to the minimum of (x-1)^2 + 10*(y - x^2)^2.
#[test]
fn drives_gradient_descent() {
    let (mut x, mut y) = (-1.2_f64, 1.0_f64);
    for _ in 0..20_000 {
        let (_, g) = value_and_gradient(&[x, y], |t, v| {
            let one = c(t, 1.0);
            let a = v[0].sub(one, t);
            let x2 = v[0].mul(v[0], t);
            let b = v[1].sub(x2, t);
            let aa = a.mul(a, t);
            let bb = b.mul(b, t);
            let ten = c(t, 10.0);
            let tbb = ten.mul(bb, t);
            aa.add(tbb, t)
        });
        x -= 1e-3 * g[0];
        y -= 1e-3 * g[1];
    }
    assert!((x - 1.0).abs() < 1e-3, "x = {x}");
    assert!((y - 1.0).abs() < 1e-3, "y = {y}");
}
