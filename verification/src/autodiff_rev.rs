//! Reverse-mode automatic differentiation over a [`Scalar`]: a tape (Wengert list) of
//! primitive operations with their primal values, the local derivative rule of each
//! primitive, and the backward pass that accumulates adjoints in reverse recording order.
//!
//! Nodes are only ever appended, and every operand index of a node is below the node's own
//! index (the tape's well-formedness, [`GradientTape::wf`]), so a reverse scan of the tape
//! visits each node after every node that consumes it.
use vstd::prelude::*;

use crate::scalar::{two, two_exec, Scalar};

verus! {

/// The largest number of operands of any [`Op`].
pub const MAX_OPERANDS: usize = 2;

/// One primitive operation of the tape. The `usize` payloads are the indices of the nodes
/// it consumes.
#[derive(Clone, Copy, Debug, PartialEq)]
pub enum Op<T> {
    /// A literal constant; it never receives a gradient.
    Const,
    /// An independent input, a leaf that gradients accumulate into.
    Input,
    /// `-a`
    Neg(usize),
    /// `a + b`
    Add(usize, usize),
    /// `a - b`
    Sub(usize, usize),
    /// `a * b`
    Mul(usize, usize),
    /// `a / b`
    Div(usize, usize),
    /// `sin(a)`
    Sin(usize),
    /// `cos(a)`
    Cos(usize),
    /// `tan(a)`
    Tan(usize),
    /// `exp(a)`
    Exp(usize),
    /// `ln(a)`
    Ln(usize),
    /// `sqrt(a)`
    Sqrt(usize),
    /// `a` to the integer power `n`.
    Powi(usize, i32),
    /// `a` to the real power `p`.
    Powf(usize, T),
}

/// The node indices an operation consumes, in order.
pub open spec fn operands<T>(op: Op<T>) -> Seq<usize> {
    match op {
        Op::Const | Op::Input => seq![],
        Op::Neg(a) | Op::Sin(a) | Op::Cos(a) | Op::Tan(a) | Op::Exp(a) | Op::Ln(a) | Op::Sqrt(a)
        | Op::Powi(a, _) | Op::Powf(a, _) => seq![a],
        Op::Add(a, b) | Op::Sub(a, b) | Op::Mul(a, b) | Op::Div(a, b) => seq![a, b],
    }
}

/// Every operand of `op` is a node below `n`.
pub open spec fn operands_below<T>(op: Op<T>, n: int) -> bool {
    forall|k: int| 0 <= k < operands(op).len() ==> (#[trigger] operands(op)[k]) < n
}

/// The exponent of the derivative of `x^n`: `n - 1`, saturating at the smallest `i32`.
pub open spec fn exponent_below(n: i32) -> i32 {
    if n == i32::MIN {
        n
    } else {
        (n - 1) as i32
    }
}

/// Element `i` of `s` (an arbitrary value out of range).
pub open spec fn node_value<T>(s: Seq<T>, i: usize) -> T {
    s[i as int]
}

/// The local Jacobian row of `op` at a node whose primal value is `value`, with `values` the
/// primal values of the tape: one `(operand, d out / d operand)` pair per operand. `exp`,
/// `tan` and `sqrt` reuse the node's own value.
pub open spec fn diff_spec<T: Scalar>(op: Op<T>, value: T, values: Seq<T>) -> Seq<(usize, T)> {
    let one = T::one_spec();
    match op {
        Op::Const | Op::Input => seq![],
        Op::Neg(a) => seq![(a, T::from_int_spec(-1i64))],
        Op::Add(a, b) => seq![(a, one), (b, one)],
        Op::Sub(a, b) => seq![(a, one), (b, T::from_int_spec(-1i64))],
        Op::Mul(a, b) => seq![(a, node_value(values, b)), (b, node_value(values, a))],
        Op::Div(a, b) => {
            let den = node_value(values, b);
            seq![(a, one.divide_spec(den)), (b, node_value(values, a).negate_spec().divide_spec(den.times_spec(den)))]
        },
        Op::Sin(a) => seq![(a, node_value(values, a).cos_spec())],
        Op::Cos(a) => seq![(a, node_value(values, a).sin_spec().negate_spec())],
        Op::Tan(a) => seq![(a, one.plus_spec(value.times_spec(value)))],
        Op::Exp(a) => seq![(a, value)],
        Op::Ln(a) => seq![(a, one.divide_spec(node_value(values, a)))],
        Op::Sqrt(a) => seq![(a, one.divide_spec(two::<T>()).divide_spec(value))],
        Op::Powi(a, n) => seq![(a, T::from_int_spec(n as i64).times_spec(node_value(values, a).powi_spec(exponent_below(n))))],
        Op::Powf(a, p) => seq![(a, p.times_spec(node_value(values, a).powf_spec(p.minus_spec(one))))],
    }
}

/// The operand of each entry of a local Jacobian row is an operand of the operation.
pub proof fn lemma_diff_operands<T: Scalar>(op: Op<T>, value: T, values: Seq<T>)
    ensures
        diff_spec(op, value, values).len() == operands(op).len(),
        forall|k: int| 0 <= k < operands(op).len() ==> (#[trigger] diff_spec(op, value, values)[k]).0 == operands(op)[k],
{
}

impl<T: Scalar> Op<T> {
    /// The local Jacobian row of this operation (see [`diff_spec`]): `value` is the primal
    /// value of this node, `values` that of every node.
    pub fn diff(&self, value: T, values: &[T]) -> (r: Partials<T>)
        requires
            operands_below(*self, values@.len() as int),
        ensures
            r@ == diff_spec(*self, value, values@),
    {
        let one = T::one();
        match *self {
            Op::Const | Op::Input => Partials::none(),
            Op::Neg(a) => Partials::unary(a, T::from_int(-1)),
            Op::Add(a, b) => {
                assert(operands(*self)[1] == b);
                Partials::binary(a, one, b, one)
            },
            Op::Sub(a, b) => {
                assert(operands(*self)[1] == b);
                Partials::binary(a, one, b, T::from_int(-1))
            },
            Op::Mul(a, b) => {
                assert(operands(*self)[0] == a && operands(*self)[1] == b);
                Partials::binary(a, values[b], b, values[a])
            },
            Op::Div(a, b) => {
                assert(operands(*self)[0] == a && operands(*self)[1] == b);
                let den = values[b];
                Partials::binary(a, one.divide(den), b, values[a].negate().divide(den.times(den)))
            },
            Op::Sin(a) => {
                assert(operands(*self)[0] == a);
                Partials::unary(a, values[a].cos())
            },
            Op::Cos(a) => {
                assert(operands(*self)[0] == a);
                Partials::unary(a, values[a].sin().negate())
            },
            Op::Tan(a) => Partials::unary(a, one.plus(value.times(value))),
            Op::Exp(a) => Partials::unary(a, value),
            Op::Ln(a) => {
                assert(operands(*self)[0] == a);
                Partials::unary(a, one.divide(values[a]))
            },
            Op::Sqrt(a) => Partials::unary(a, one.divide(two_exec::<T>()).divide(value)),
            Op::Powi(a, n) => {
                assert(operands(*self)[0] == a);
                let m: i32 = if n == i32::MIN {
                    n
                } else {
                    n - 1
                };
                Partials::unary(a, T::from_int(n as i64).times(values[a].powi(m)))
            },
            Op::Powf(a, p) => {
                assert(operands(*self)[0] == a);
                Partials::unary(a, p.times(values[a].powf(p.minus(one))))
            },
        }
    }

    /// Whether the operation has no operands (a constant or an input).
    pub fn is_leaf(&self) -> (r: bool)
        ensures
            r <==> (*self is Const || *self is Input),
    {
        match self {
            Op::Const | Op::Input => true,
            _ => false,
        }
    }

    /// Whether the operation is a constant.
    pub fn is_const(&self) -> (r: bool)
        ensures
            r <==> *self is Const,
    {
        match self {
            Op::Const => true,
            _ => false,
        }
    }
}

/// A local Jacobian row: at most [`MAX_OPERANDS`] `(operand, derivative)` pairs.
#[derive(Clone, Debug, PartialEq)]
pub struct Partials<T> {
    entries: Vec<(usize, T)>,
}

impl<T> View for Partials<T> {
    type V = Seq<(usize, T)>;

    closed spec fn view(&self) -> Seq<(usize, T)> {
        self.entries@
    }
}

impl<T: Copy> Partials<T> {
    /// The empty row of a leaf.
    pub fn none() -> (r: Self)
        ensures
            r@ == Seq::<(usize, T)>::empty(),
    {
        Partials { entries: Vec::new() }
    }

    /// The one-entry row of a unary operation.
    pub fn unary(operand: usize, derivative: T) -> (r: Self)
        ensures
            r@ == seq![(operand, derivative)],
    {
        let mut entries = Vec::new();
        entries.push((operand, derivative));
        Partials { entries }
    }

    /// The two-entry row of a binary operation; the operands may be the same node.
    pub fn binary(lhs: usize, d_lhs: T, rhs: usize, d_rhs: T) -> (r: Self)
        ensures
            r@ == seq![(lhs, d_lhs), (rhs, d_rhs)],
    {
        let mut entries = Vec::new();
        entries.push((lhs, d_lhs));
        entries.push((rhs, d_rhs));
        Partials { entries }
    }

    /// The populated pairs.
    pub fn as_slice(&self) -> (r: &[(usize, T)])
        ensures
            r@ == self@,
    {
        self.entries.as_slice()
    }

    /// The number of operands in the row.
    pub fn len(&self) -> (r: usize)
        ensures
            r == self@.len(),
    {
        self.entries.len()
    }

    /// Whether the row is empty (a leaf's row).
    pub fn is_empty(&self) -> (r: bool)
        ensures
            r <==> self@.len() == 0,
    {
        self.entries.len() == 0
    }

    /// The pairs, in order, as a vector.
    pub fn iter(&self) -> (r: Vec<(usize, T)>)
        ensures
            r@ == self@,
    {
        let mut out: Vec<(usize, T)> = Vec::new();
        for k in 0..self.entries.len()
            invariant
                out@ == self.entries@.take(k as int),
        {
            out.push(self.entries[k]);
            assert(out@ =~= self.entries@.take(k + 1));
        }
        assert(out@ =~= self.entries@);
        out
    }
}

impl<T: Copy> Default for Partials<T> {
    fn default() -> (r: Self)
        ensures
            r@ == Seq::<(usize, T)>::empty(),
    {
        Partials::none()
    }
}

// ===========================================================================
// The tape
// ===========================================================================

/// A handle to a node of a [`GradientTape`]: its index and its primal value.
#[derive(Clone, Copy, Debug)]
pub struct Variable<T> {
    index: usize,
    value: T,
}

impl<T: Copy> Variable<T> {
    /// The node index of the handle.
    pub closed spec fn node(&self) -> usize {
        self.index
    }

    /// The primal value of the handle.
    pub closed spec fn primal(&self) -> T {
        self.value
    }

    /// The primal (forward) value of this node.
    pub fn value(&self) -> (r: T)
        ensures
            r == self.primal(),
    {
        self.value
    }

    /// The index of this node on its tape.
    pub fn index(&self) -> (r: usize)
        ensures
            r == self.node(),
    {
        self.index
    }
}

/// The recorded program: one operation and one primal value per node.
#[derive(Clone, Debug)]
pub struct GradientTape<T> {
    ops: Vec<Op<T>>,
    values: Vec<T>,
}

/// Every node's operands are recorded before it.
pub open spec fn topological<T>(ops: Seq<Op<T>>) -> bool {
    forall|i: int| 0 <= i < ops.len() ==> operands_below(#[trigger] ops[i], i)
}

impl<T: Scalar> GradientTape<T> {
    /// The recorded operations, by node.
    pub closed spec fn ops_seq(&self) -> Seq<Op<T>> {
        self.ops@
    }

    /// The recorded primal values, by node.
    pub closed spec fn values_seq(&self) -> Seq<T> {
        self.values@
    }

    /// One value per operation, and operands recorded before their users.
    pub open spec fn wf(&self) -> bool {
        &&& self.values_seq().len() == self.ops_seq().len()
        &&& topological(self.ops_seq())
    }

    /// `var` names a node of this tape.
    pub open spec fn holds(&self, var: Variable<T>) -> bool {
        var.node() < self.ops_seq().len()
    }

    /// `after` is `before` with the node `(op, value)` appended, and `r` is its handle.
    pub open spec fn appended(before: Self, after: Self, op: Op<T>, value: T, r: Variable<T>) -> bool {
        &&& after.wf()
        &&& after.ops_seq() == before.ops_seq().push(op)
        &&& after.values_seq() == before.values_seq().push(value)
        &&& r.node() == before.ops_seq().len()
        &&& r.primal() == value
    }

    /// An empty tape.
    pub fn new() -> (r: Self)
        ensures
            r.wf(),
            r.ops_seq() == Seq::<Op<T>>::empty(),
            r.values_seq() == Seq::<T>::empty(),
    {
        GradientTape { ops: Vec::new(), values: Vec::new() }
    }

    /// An empty tape with room for `capacity` nodes.
    pub fn with_capacity(capacity: usize) -> (r: Self)
        ensures
            r.wf(),
            r.ops_seq() == Seq::<Op<T>>::empty(),
            r.values_seq() == Seq::<T>::empty(),
    {
        GradientTape { ops: Vec::with_capacity(capacity), values: Vec::with_capacity(capacity) }
    }

    /// The number of recorded nodes.
    pub fn len(&self) -> (r: usize)
        ensures
            r == self.ops_seq().len(),
    {
        self.ops.len()
    }

    /// Whether nothing is recorded.
    pub fn is_empty(&self) -> (r: bool)
        ensures
            r <==> self.ops_seq().len() == 0,
    {
        self.ops.len() == 0
    }

    /// Discards every node.
    pub fn clear(&mut self)
        ensures
            final(self).wf(),
            final(self).ops_seq() == Seq::<Op<T>>::empty(),
            final(self).values_seq() == Seq::<T>::empty(),
    {
        self.ops.clear();
        self.values.clear();
    }

    /// Appends the node `(op, value)` and returns its handle; `op`'s operands must already be
    /// on the tape, and `value` is taken as the node's primal value.
    pub fn push(&mut self, op: Op<T>, value: T) -> (r: Variable<T>)
        requires
            old(self).wf(),
            operands_below(op, old(self).ops_seq().len() as int),
        ensures
            Self::appended(*old(self), *final(self), op, value, r),
    {
        let index = self.ops.len();
        self.ops.push(op);
        self.values.push(value);
        proof {
            assert forall|i: int| 0 <= i < self.ops@.len() implies operands_below(#[trigger] self.ops@[i], i) by {
                if i < index {
                    assert(self.ops@[i] == old(self).ops@[i]);
                }
            }
        }
        Variable { index, value }
    }

    /// Records an independent input holding `value`.
    pub fn var(&mut self, value: T) -> (r: Variable<T>)
        requires
            old(self).wf(),
        ensures
            Self::appended(*old(self), *final(self), Op::Input, value, r),
    {
        self.push(Op::Input, value)
    }

    /// Records an independent input holding `value` (the same as [`Self::var`]).
    pub fn variable(&mut self, value: T) -> (r: Variable<T>)
        requires
            old(self).wf(),
        ensures
            Self::appended(*old(self), *final(self), Op::Input, value, r),
    {
        self.var(value)
    }

    /// Records one independent input per value, in order.
    pub fn vars(&mut self, values: &[T]) -> (r: Vec<Variable<T>>)
        requires
            old(self).wf(),
        ensures
            final(self).wf(),
            final(self).ops_seq() == old(self).ops_seq() + Seq::new(values@.len(), |k: int| Op::<T>::Input),
            final(self).values_seq() == old(self).values_seq() + values@,
            r@.len() == values@.len(),
            forall|k: int|
                0 <= k < values@.len() ==> (#[trigger] r@[k]).node() == old(self).ops_seq().len() + k && r@[k].primal()
                    == values@[k],
    {
        let mut out: Vec<Variable<T>> = Vec::new();
        for k in 0..values.len()
            invariant
                self.wf(),
                self.ops_seq() == old(self).ops_seq() + Seq::new(k as nat, |j: int| Op::<T>::Input),
                self.values_seq() == old(self).values_seq() + values@.take(k as int),
                out@.len() == k,
                forall|j: int|
                    0 <= j < k ==> (#[trigger] out@[j]).node() == old(self).ops_seq().len() + j && out@[j].primal()
                        == values@[j],
        {
            let v = self.var(values[k]);
            out.push(v);
            assert(self.ops_seq() =~= old(self).ops_seq() + Seq::new((k + 1) as nat, |j: int| Op::<T>::Input));
            assert(self.values_seq() =~= old(self).values_seq() + values@.take(k + 1));
        }
        assert(values@.take(values@.len() as int) =~= values@);
        out
    }

    /// Records a constant holding `value`; it takes part in the forward values but never
    /// receives a gradient.
    pub fn constant(&mut self, value: T) -> (r: Variable<T>)
        requires
            old(self).wf(),
        ensures
            Self::appended(*old(self), *final(self), Op::Const, value, r),
    {
        self.push(Op::Const, value)
    }

    /// The operation recorded at `index`.
    pub fn op(&self, index: usize) -> (r: Op<T>)
        requires
            index < self.ops_seq().len(),
        ensures
            r == self.ops_seq()[index as int],
    {
        self.ops[index]
    }

    /// The primal value recorded at `index`.
    pub fn value(&self, index: usize) -> (r: T)
        requires
            self.wf(),
            index < self.ops_seq().len(),
        ensures
            r == self.values_seq()[index as int],
    {
        self.values[index]
    }
}

impl<T: Scalar> Variable<T> {
    /// `sin(self)`, with local derivative `cos(self)`.
    pub fn sin(self, tape: &mut GradientTape<T>) -> (r: Variable<T>)
        requires
            old(tape).wf(),
            old(tape).holds(self),
        ensures
            GradientTape::appended(*old(tape), *final(tape), Op::Sin(self.node()), self.primal().sin_spec(), r),
    {
        let value = self.value.sin();
        proof {
            assert(operands(Op::<T>::Sin(self.index))[0] == self.index);
        }
        tape.push(Op::Sin(self.index), value)
    }

    /// `cos(self)`, with local derivative `-sin(self)`.
    pub fn cos(self, tape: &mut GradientTape<T>) -> (r: Variable<T>)
        requires
            old(tape).wf(),
            old(tape).holds(self),
        ensures
            GradientTape::appended(*old(tape), *final(tape), Op::Cos(self.node()), self.primal().cos_spec(), r),
    {
        let value = self.value.cos();
        proof {
            assert(operands(Op::<T>::Cos(self.index))[0] == self.index);
        }
        tape.push(Op::Cos(self.index), value)
    }

    /// `tan(self)`, with local derivative `1 + tan(self)^2`.
    pub fn tan(self, tape: &mut GradientTape<T>) -> (r: Variable<T>)
        requires
            old(tape).wf(),
            old(tape).holds(self),
        ensures
            GradientTape::appended(*old(tape), *final(tape), Op::Tan(self.node()), self.primal().tan_spec(), r),
    {
        let value = self.value.tan();
        proof {
            assert(operands(Op::<T>::Tan(self.index))[0] == self.index);
        }
        tape.push(Op::Tan(self.index), value)
    }

    /// `exp(self)`, with local derivative `exp(self)`.
    pub fn exp(self, tape: &mut GradientTape<T>) -> (r: Variable<T>)
        requires
            old(tape).wf(),
            old(tape).holds(self),
        ensures
            GradientTape::appended(*old(tape), *final(tape), Op::Exp(self.node()), self.primal().exp_spec(), r),
    {
        let value = self.value.exp();
        proof {
            assert(operands(Op::<T>::Exp(self.index))[0] == self.index);
        }
        tape.push(Op::Exp(self.index), value)
    }

    /// `ln(self)`, with local derivative `1 / self`.
    pub fn ln(self, tape: &mut GradientTape<T>) -> (r: Variable<T>)
        requires
            old(tape).wf(),
            old(tape).holds(self),
        ensures
            GradientTape::appended(*old(tape), *final(tape), Op::Ln(self.node()), self.primal().ln_spec(), r),
    {
        let value = self.value.ln();
        proof {
            assert(operands(Op::<T>::Ln(self.index))[0] == self.index);
        }
        tape.push(Op::Ln(self.index), value)
    }

    /// `sqrt(self)`, with local derivative `1 / (2 sqrt(self))`.
    pub fn sqrt(self, tape: &mut GradientTape<T>) -> (r: Variable<T>)
        requires
            old(tape).wf(),
            old(tape).holds(self),
        ensures
            GradientTape::appended(*old(tape), *final(tape), Op::Sqrt(self.node()), self.primal().sqrt_spec(), r),
    {
        let value = self.value.sqrt();
        proof {
            assert(operands(Op::<T>::Sqrt(self.index))[0] == self.index);
        }
        tape.push(Op::Sqrt(self.index), value)
    }

    /// `-self`, with local derivative `-1`.
    pub fn neg(self, tape: &mut GradientTape<T>) -> (r: Variable<T>)
        requires
            old(tape).wf(),
            old(tape).holds(self),
        ensures
            GradientTape::appended(*old(tape), *final(tape), Op::Neg(self.node()), self.primal().negate_spec(), r),
    {
        let value = self.value.negate();
        proof {
            assert(operands(Op::<T>::Neg(self.index))[0] == self.index);
        }
        tape.push(Op::Neg(self.index), value)
    }

    /// `self` to the integer power `n`, with local derivative `n * self^(n - 1)`.
    pub fn powi(self, n: i32, tape: &mut GradientTape<T>) -> (r: Variable<T>)
        requires
            old(tape).wf(),
            old(tape).holds(self),
        ensures
            GradientTape::appended(*old(tape), *final(tape), Op::Powi(self.node(), n), self.primal().powi_spec(n), r),
    {
        let value = self.value.powi(n);
        proof {
            assert(operands(Op::<T>::Powi(self.index, n))[0] == self.index);
        }
        tape.push(Op::Powi(self.index, n), value)
    }

    /// `self` to the real power `p`, with local derivative `p * self^(p - 1)`.
    pub fn powf(self, p: T, tape: &mut GradientTape<T>) -> (r: Variable<T>)
        requires
            old(tape).wf(),
            old(tape).holds(self),
        ensures
            GradientTape::appended(*old(tape), *final(tape), Op::Powf(self.node(), p), self.primal().powf_spec(p), r),
    {
        let value = self.value.powf(p);
        proof {
            assert(operands(Op::<T>::Powf(self.index, p))[0] == self.index);
        }
        tape.push(Op::Powf(self.index, p), value)
    }

    /// `self + rhs`, with local derivatives `1` and `1`.
    pub fn add(self, rhs: Variable<T>, tape: &mut GradientTape<T>) -> (r: Variable<T>)
        requires
            old(tape).wf(),
            old(tape).holds(self),
            old(tape).holds(rhs),
        ensures
            GradientTape::appended(
                *old(tape),
                *final(tape),
                Op::Add(self.node(), rhs.node()),
                self.primal().plus_spec(rhs.primal()),
                r,
            ),
    {
        let value = self.value.plus(rhs.value);
        proof {
            assert(operands(Op::<T>::Add(self.index, rhs.index)) == seq![self.index, rhs.index]);
        }
        tape.push(Op::Add(self.index, rhs.index), value)
    }

    /// `self - rhs`, with local derivatives `1` and `-1`.
    pub fn sub(self, rhs: Variable<T>, tape: &mut GradientTape<T>) -> (r: Variable<T>)
        requires
            old(tape).wf(),
            old(tape).holds(self),
            old(tape).holds(rhs),
        ensures
            GradientTape::appended(
                *old(tape),
                *final(tape),
                Op::Sub(self.node(), rhs.node()),
                self.primal().minus_spec(rhs.primal()),
                r,
            ),
    {
        let value = self.value.minus(rhs.value);
        proof {
            assert(operands(Op::<T>::Sub(self.index, rhs.index)) == seq![self.index, rhs.index]);
        }
        tape.push(Op::Sub(self.index, rhs.index), value)
    }

    /// `self * rhs`, with local derivatives `rhs` and `self`.
    pub fn mul(self, rhs: Variable<T>, tape: &mut GradientTape<T>) -> (r: Variable<T>)
        requires
            old(tape).wf(),
            old(tape).holds(self),
            old(tape).holds(rhs),
        ensures
            GradientTape::appended(
                *old(tape),
                *final(tape),
                Op::Mul(self.node(), rhs.node()),
                self.primal().times_spec(rhs.primal()),
                r,
            ),
    {
        let value = self.value.times(rhs.value);
        proof {
            assert(operands(Op::<T>::Mul(self.index, rhs.index)) == seq![self.index, rhs.index]);
        }
        tape.push(Op::Mul(self.index, rhs.index), value)
    }

    /// `self / rhs`, with local derivatives `1 / rhs` and `-self / rhs^2`.
    pub fn div(self, rhs: Variable<T>, tape: &mut GradientTape<T>) -> (r: Variable<T>)
        requires
            old(tape).wf(),
            old(tape).holds(self),
            old(tape).holds(rhs),
        ensures
            GradientTape::appended(
                *old(tape),
                *final(tape),
                Op::Div(self.node(), rhs.node()),
                self.primal().divide_spec(rhs.primal()),
                r,
            ),
    {
        let value = self.value.divide(rhs.value);
        proof {
            assert(operands(Op::<T>::Div(self.index, rhs.index)) == seq![self.index, rhs.index]);
        }
        tape.push(Op::Div(self.index, rhs.index), value)
    }

    /// `1 / self`: a constant one, then its quotient by `self` (local derivative
    /// `-1 / self^2`).
    pub fn recip(self, tape: &mut GradientTape<T>) -> (r: Variable<T>)
        requires
            old(tape).wf(),
            old(tape).holds(self),
        ensures
            final(tape).wf(),
            final(tape).ops_seq() == old(tape).ops_seq().push(Op::Const).push(
                Op::Div(old(tape).ops_seq().len() as usize, self.node()),
            ),
            final(tape).values_seq() == old(tape).values_seq().push(T::one_spec()).push(
                T::one_spec().divide_spec(self.primal()),
            ),
            r.node() == old(tape).ops_seq().len() + 1,
            r.primal() == T::one_spec().divide_spec(self.primal()),
    {
        let one = tape.constant(T::one());
        one.div(self, tape)
    }
}

// ===========================================================================
// The backward pass
// ===========================================================================

/// Adds `adjoint * derivative` into each operand of `parts` from entry `k` on, skipping
/// operands that are constants.
pub open spec fn accumulate<T: Scalar>(ops: Seq<Op<T>>, adj: Seq<T>, adjoint: T, parts: Seq<(usize, T)>, k: int) -> Seq<T>
    decreases parts.len() - k,
{
    if k < 0 || k >= parts.len() {
        adj
    } else {
        let o = parts[k].0 as int;
        let next = if ops[o] is Const {
            adj
        } else {
            adj.update(o, adj[o].plus_spec(adjoint.times_spec(parts[k].1)))
        };
        accumulate(ops, next, adjoint, parts, k + 1)
    }
}

/// Node `i` hands its adjoint on to its operands, unless the adjoint equals zero.
pub open spec fn propagate<T: Scalar>(ops: Seq<Op<T>>, values: Seq<T>, adj: Seq<T>, i: int) -> Seq<T> {
    if adj[i].eq_spec(T::zero_spec()) {
        adj
    } else {
        accumulate(ops, adj, adj[i], diff_spec(ops[i], values[i], values), 0)
    }
}

/// Nodes `i`, `i - 1`, ..., `0` propagate in turn.
pub open spec fn sweep<T: Scalar>(ops: Seq<Op<T>>, values: Seq<T>, adj: Seq<T>, i: int) -> Seq<T>
    decreases i + 1,
{
    if i < 0 {
        adj
    } else {
        sweep(ops, values, propagate(ops, values, adj, i), i - 1)
    }
}

/// The adjoints of every node after a backward pass from `output`: the output seeded with
/// one and every other node with zero, then nodes `output`, ..., `0` propagating in turn.
pub open spec fn adjoints_from<T: Scalar>(ops: Seq<Op<T>>, values: Seq<T>, output: int) -> Seq<T> {
    sweep(ops, values, Seq::new(ops.len(), |k: int| T::zero_spec()).update(output, T::one_spec()), output)
}

/// The adjoint of `node` in `adj`, zero past its end.
pub open spec fn adjoint_at<T: Scalar>(adj: Seq<T>, node: int) -> T {
    if 0 <= node < adj.len() {
        adj[node]
    } else {
        T::zero_spec()
    }
}

/// The adjoints of a backward pass: `d output / d node` for every node of the tape.
#[derive(Clone, Debug, PartialEq)]
pub struct Gradient<T> {
    adjoints: Vec<T>,
}

impl<T> View for Gradient<T> {
    type V = Seq<T>;

    closed spec fn view(&self) -> Seq<T> {
        self.adjoints@
    }
}

impl<T: Scalar> Gradient<T> {
    /// The derivative of the pass's output with respect to `var`: zero for nodes past the end.
    pub fn wrt(&self, var: Variable<T>) -> (r: T)
        ensures
            r == adjoint_at(self@, var.node() as int),
    {
        let i = var.index();
        if i < self.adjoints.len() {
            self.adjoints[i]
        } else {
            T::zero()
        }
    }

    /// The adjoints of all nodes.
    pub fn as_slice(&self) -> (r: &[T])
        ensures
            r@ == self@,
    {
        self.adjoints.as_slice()
    }

    /// The adjoints as a vector.
    pub fn into_vec(self) -> (r: Vec<T>)
        ensures
            r@ == self@,
    {
        self.adjoints
    }

    /// The number of nodes covered.
    pub fn len(&self) -> (r: usize)
        ensures
            r == self@.len(),
    {
        self.adjoints.len()
    }

    /// Whether the tape was empty.
    pub fn is_empty(&self) -> (r: bool)
        ensures
            r <==> self@.len() == 0,
    {
        self.adjoints.len() == 0
    }
}

/// Propagating keeps the length of the adjoint sequence.
proof fn lemma_accumulate_len<T: Scalar>(ops: Seq<Op<T>>, adj: Seq<T>, adjoint: T, parts: Seq<(usize, T)>, k: int)
    requires
        forall|j: int| 0 <= j < parts.len() ==> (#[trigger] parts[j]).0 < adj.len(),
    ensures
        accumulate(ops, adj, adjoint, parts, k).len() == adj.len(),
    decreases parts.len() - k,
{
    if 0 <= k < parts.len() {
        let o = parts[k].0 as int;
        let next = if ops[o] is Const {
            adj
        } else {
            adj.update(o, adj[o].plus_spec(adjoint.times_spec(parts[k].1)))
        };
        lemma_accumulate_len(ops, next, adjoint, parts, k + 1);
    }
}

/// Accumulating leaves node `j` alone when it is a constant or no entry names it.
proof fn lemma_accumulate_keeps<T: Scalar>(ops: Seq<Op<T>>, adj: Seq<T>, adjoint: T, parts: Seq<(usize, T)>, k: int, j: int)
    requires
        forall|m: int| 0 <= m < parts.len() ==> (#[trigger] parts[m]).0 < adj.len(),
        0 <= j < adj.len(),
        ops[j] is Const || forall|m: int| 0 <= m < parts.len() ==> (#[trigger] parts[m]).0 != j,
    ensures
        accumulate(ops, adj, adjoint, parts, k)[j] == adj[j],
    decreases parts.len() - k,
{
    if 0 <= k < parts.len() {
        let o = parts[k].0 as int;
        let next = if ops[o] is Const {
            adj
        } else {
            adj.update(o, adj[o].plus_spec(adjoint.times_spec(parts[k].1)))
        };
        lemma_accumulate_keeps(ops, next, adjoint, parts, k + 1, j);
    }
}

/// Propagating node `i` keeps the length and leaves node `j` alone when `j` is a constant
/// or is not below `i`.
proof fn lemma_propagate_keeps<T: Scalar>(ops: Seq<Op<T>>, values: Seq<T>, adj: Seq<T>, i: int, j: int)
    requires
        topological(ops),
        values.len() == ops.len(),
        adj.len() == ops.len(),
        0 <= i < ops.len(),
        0 <= j < ops.len(),
        ops[j] is Const || j >= i,
    ensures
        propagate(ops, values, adj, i).len() == adj.len(),
        propagate(ops, values, adj, i)[j] == adj[j],
{
    if !adj[i].eq_spec(T::zero_spec()) {
        let parts = diff_spec(ops[i], values[i], values);
        lemma_diff_operands(ops[i], values[i], values);
        assert(operands_below(ops[i], i));
        assert forall|m: int| 0 <= m < parts.len() implies (#[trigger] parts[m]).0 < i by {
            assert(operands(ops[i])[m] < i);
        }
        lemma_accumulate_len(ops, adj, adj[i], parts, 0);
        lemma_accumulate_keeps(ops, adj, adj[i], parts, 0, j);
    }
}

/// Sweeping nodes `i`, ..., `0` keeps the length and leaves node `j` alone when `j` is a
/// constant or lies above `i`.
proof fn lemma_sweep_keeps<T: Scalar>(ops: Seq<Op<T>>, values: Seq<T>, adj: Seq<T>, i: int, j: int)
    requires
        topological(ops),
        values.len() == ops.len(),
        adj.len() == ops.len(),
        i < ops.len(),
        0 <= j < ops.len(),
        ops[j] is Const || j > i,
    ensures
        sweep(ops, values, adj, i).len() == adj.len(),
        sweep(ops, values, adj, i)[j] == adj[j],
    decreases i + 1,
{
    if i >= 0 {
        lemma_propagate_keeps(ops, values, adj, i, j);
        lemma_sweep_keeps(ops, values, propagate(ops, values, adj, i), i - 1, j);
    }
}

/// The backward pass gives a constant other than the output a zero adjoint: gradient never
/// flows into constants.
pub proof fn lemma_constants_get_no_adjoint<T: Scalar>(ops: Seq<Op<T>>, values: Seq<T>, output: int, c: int)
    requires
        topological(ops),
        values.len() == ops.len(),
        0 <= output < ops.len(),
        0 <= c < ops.len(),
        c != output,
        ops[c] is Const,
    ensures
        adjoints_from(ops, values, output)[c] == T::zero_spec(),
{
    let seed = Seq::new(ops.len(), |k: int| T::zero_spec()).update(output, T::one_spec());
    lemma_sweep_keeps(ops, values, seed, output, c);
}

/// The backward pass gives every node recorded after the output a zero adjoint, and the
/// output itself an adjoint of one.
pub proof fn lemma_output_and_later_adjoints<T: Scalar>(ops: Seq<Op<T>>, values: Seq<T>, output: int)
    requires
        topological(ops),
        values.len() == ops.len(),
        0 <= output < ops.len(),
    ensures
        adjoints_from(ops, values, output).len() == ops.len(),
        adjoints_from(ops, values, output)[output] == T::one_spec(),
        forall|k: int| output < k < ops.len() ==> #[trigger] adjoints_from(ops, values, output)[k] == T::zero_spec(),
{
    let seed = Seq::new(ops.len(), |k: int| T::zero_spec()).update(output, T::one_spec());
    lemma_propagate_keeps(ops, values, seed, output, output);
    let first = propagate(ops, values, seed, output);
    lemma_sweep_keeps(ops, values, first, output - 1, output);
    assert forall|k: int| output < k < ops.len() implies #[trigger] adjoints_from(ops, values, output)[k] == T::zero_spec() by {
        lemma_sweep_keeps(ops, values, seed, output, k);
    }
}

impl<T: Scalar> GradientTape<T> {
    /// Node `index` hands `adjoints[index]` on to its operands (see [`propagate`]).
    fn propagate_node(&self, adjoints: &mut Vec<T>, index: usize)
        requires
            self.wf(),
            index < self.ops_seq().len(),
            old(adjoints)@.len() == self.ops_seq().len(),
        ensures
            final(adjoints)@ == propagate(self.ops_seq(), self.values_seq(), old(adjoints)@, index as int),
    {
        let adjoint = adjoints[index];
        if adjoint.eq(T::zero()) {
            return;
        }
        proof {
            assert(operands_below(self.ops@[index as int], index as int));
            assert forall|k: int| 0 <= k < operands(self.ops@[index as int]).len() implies (#[trigger] operands(
                self.ops@[index as int],
            )[k]) < self.values@.len() by {
                assert(operands(self.ops@[index as int])[k] < index);
            }
        }
        let partials = self.ops[index].diff(self.values[index], self.values.as_slice());
        let ghost parts = partials@;
        let ghost ops = self.ops_seq();
        let ghost start = adjoints@;
        proof {
            lemma_diff_operands(self.ops@[index as int], self.values@[index as int], self.values@);
        }
        let entries = partials.iter();
        for k in 0..entries.len()
            invariant
                entries@ == parts,
                ops == self.ops_seq(),
                self.wf(),
                index < ops.len(),
                parts == diff_spec(ops[index as int], self.values_seq()[index as int], self.values_seq()),
                parts.len() == operands(ops[index as int]).len(),
                forall|j: int| 0 <= j < parts.len() ==> (#[trigger] parts[j]).0 == operands(ops[index as int])[j],
                operands_below(ops[index as int], index as int),
                adjoints@.len() == ops.len(),
                accumulate(ops, adjoints@, adjoint, parts, k as int) == accumulate(ops, start, adjoint, parts, 0),
        {
            let (operand, local) = entries[k];
            assert(parts[k as int].0 == operands(ops[index as int])[k as int]);
            if !self.ops[operand].is_const() {
                let updated = adjoints[operand].plus(adjoint.times(local));
                adjoints.set(operand, updated);
            }
        }
    }

    /// Runs the backward pass from `output` and returns the adjoint of every node (see
    /// [`adjoints_from`]): nodes the output does not depend on keep zero, and constants never
    /// accumulate one.
    pub fn backward(&self, output: Variable<T>) -> (r: Gradient<T>)
        requires
            self.wf(),
            self.holds(output),
        ensures
            r@ == adjoints_from(self.ops_seq(), self.values_seq(), output.node() as int),
    {
        let n = self.ops.len();
        let out = output.index();
        let mut adjoints: Vec<T> = Vec::new();
        for k in 0..n
            invariant
                adjoints@ == Seq::new(k as nat, |j: int| T::zero_spec()),
        {
            adjoints.push(T::zero());
            assert(adjoints@ =~= Seq::new((k + 1) as nat, |j: int| T::zero_spec()));
        }
        adjoints.set(out, T::one());
        let ghost ops = self.ops_seq();
        let ghost values = self.values_seq();
        let mut next: usize = out + 1;
        while next > 0
            invariant
                ops == self.ops_seq(),
                values == self.values_seq(),
                self.wf(),
                next <= out + 1,
                out < ops.len(),
                adjoints@.len() == ops.len(),
                sweep(ops, values, adjoints@, next - 1) == adjoints_from(ops, values, out as int),
            decreases next,
        {
            let index = next - 1;
            let ghost before = adjoints@;
            self.propagate_node(&mut adjoints, index);
            proof {
                lemma_diff_operands(ops[index as int], values[index as int], values);
                let parts = diff_spec(ops[index as int], values[index as int], values);
                assert forall|j: int| 0 <= j < parts.len() implies (#[trigger] parts[j]).0 < before.len() by {
                    assert(operands_below(ops[index as int], index as int));
                    assert(operands(ops[index as int])[j] < index);
                }
                lemma_accumulate_len(ops, before, before[index as int], parts, 0);
            }
            next = index;
        }
        Gradient { adjoints }
    }

    /// The derivatives of `output` with respect to each of `wrt`, in order (see
    /// [`Gradient::wrt`]).
    pub fn gradient(&self, output: Variable<T>, wrt: &[Variable<T>]) -> (r: Vec<T>)
        requires
            self.wf(),
            self.holds(output),
        ensures
            r@ == Seq::new(
                wrt@.len(),
                |k: int| adjoint_at(adjoints_from(self.ops_seq(), self.values_seq(), output.node() as int), wrt@[k].node() as int),
            ),
    {
        let grad = self.backward(output);
        let mut out: Vec<T> = Vec::new();
        for k in 0..wrt.len()
            invariant
                out@ == Seq::new(k as nat, |j: int| adjoint_at(grad@, wrt@[j].node() as int)),
        {
            out.push(grad.wrt(wrt[k]));
            assert(out@ =~= Seq::new((k + 1) as nat, |j: int| adjoint_at(grad@, wrt@[j].node() as int)));
        }
        out
    }
}

} // verus!
