//! Sampling from weighted categorical distributions over a [`Scalar`]: weight validation,
//! inverse-CDF sampling and systematic / stratified / multinomial resampling.
use vstd::prelude::*;

use crate::prob::{Distribution, Rng, Standard};
use crate::scalar::{tiny, tiny_exec, Scalar};

verus! {

/// Errors produced while constructing or validating a sampler.
#[derive(Clone, Copy, Debug, PartialEq, Eq)]
#[non_exhaustive]
pub enum SamplerError {
    /// No weights (an empty distribution).
    Empty,
    /// A weight was negative.
    NegativeWeight,
    /// A weight was not finite.
    NonFiniteWeight,
    /// The total weight was not positive (or not finite).
    ZeroTotal,
    /// A CDF was not non-decreasing within `[0, 1]` ending in `1`.
    InvalidCdf,
    /// A probability parameter was outside `[0, 1]`.
    InvalidProbability,
    /// A rejection-sampling envelope constant was not strictly positive.
    InvalidBound,
    /// A uniform interval was empty or invalid.
    InvalidInterval,
    /// More samples were requested than there are distinct items.
    TooManySamples,
}

// ===========================================================================
// Weights
// ===========================================================================

/// Scanning the weights from position `k` with running total `total`: the first non-finite
/// weight gives `NonFiniteWeight`, the first negative one `NegativeWeight`; at the end a total
/// that is at most zero or not finite gives `ZeroTotal`, otherwise the total.
pub open spec fn weights_from<T: Scalar>(ws: Seq<T>, k: int, total: T) -> Result<T, SamplerError>
    decreases ws.len() - k,
{
    if k >= ws.len() {
        if total.le_spec(T::zero_spec()) || !total.is_finite_spec() {
            Err(SamplerError::ZeroTotal)
        } else {
            Ok(total)
        }
    } else {
        let w = ws[k];
        if !w.is_finite_spec() {
            Err(SamplerError::NonFiniteWeight)
        } else if w.lt_spec(T::zero_spec()) {
            Err(SamplerError::NegativeWeight)
        } else {
            weights_from(ws, k + 1, total.plus_spec(w))
        }
    }
}

/// The validation of unnormalised weights: `Empty` without weights, else [`weights_from`]
/// from a zero total (the weights summed in order).
pub open spec fn weights_total<T: Scalar>(ws: Seq<T>) -> Result<T, SamplerError> {
    if ws.len() == 0 {
        Err(SamplerError::Empty)
    } else {
        weights_from(ws, 0, T::zero_spec())
    }
}

/// Validates unnormalised weights and returns their total (see [`weights_total`]).
pub fn validate_weights<T: Scalar>(weights: &[T]) -> (r: Result<T, SamplerError>)
    ensures
        r == weights_total(weights@),
{
    if weights.len() == 0 {
        return Err(SamplerError::Empty);
    }
    let mut total = T::zero();
    for i in 0..weights.len()
        invariant
            weights@.len() > 0,
            weights_from(weights@, i as int, total) == weights_total(weights@),
    {
        let w = weights[i];
        if !w.is_finite() {
            return Err(SamplerError::NonFiniteWeight);
        }
        if w.lt(T::zero()) {
            return Err(SamplerError::NegativeWeight);
        }
        total = total.plus(w);
    }
    if total.le(T::zero()) || !total.is_finite() {
        return Err(SamplerError::ZeroTotal);
    }
    Ok(total)
}

// ===========================================================================
// CDFs
// ===========================================================================

/// `|x|`, as `-x` when `x < 0` and `x` otherwise.
pub open spec fn fabs_spec<T: Scalar>(x: T) -> T {
    if x.lt_spec(T::zero_spec()) {
        x.negate_spec()
    } else {
        x
    }
}

/// Scanning a CDF from position `k` after the entry `prev`: every entry must be finite, within
/// `[0, 1]` and not below its predecessor, and the last one within `10^-12` of one.
pub open spec fn cdf_from<T: Scalar>(cs: Seq<T>, k: int, prev: T) -> bool
    decreases cs.len() - k,
{
    if k >= cs.len() {
        !tiny::<T>().lt_spec(fabs_spec(prev.minus_spec(T::one_spec())))
    } else {
        let c = cs[k];
        &&& c.is_finite_spec()
        &&& T::zero_spec().le_spec(c)
        &&& c.le_spec(T::one_spec())
        &&& !c.lt_spec(prev)
        &&& cdf_from(cs, k + 1, c)
    }
}

/// A valid normalised CDF: non-empty, and valid from a zero start (see [`cdf_from`]).
pub open spec fn cdf_valid<T: Scalar>(cs: Seq<T>) -> bool {
    cs.len() > 0 && cdf_from(cs, 0, T::zero_spec())
}

/// The in-order sum of `ws[i] / total` for `i < m`, from zero.
pub open spec fn running_share<T: Scalar>(ws: Seq<T>, total: T, m: int) -> T
    decreases m,
{
    if m <= 0 {
        T::zero_spec()
    } else {
        running_share(ws, total, m - 1).plus_spec(ws[m - 1].divide_spec(total))
    }
}

/// The CDF of weights `ws` with total `total`: the running shares, the last entry forced to
/// one.
pub open spec fn weights_cdf<T: Scalar>(ws: Seq<T>, total: T) -> Seq<T> {
    Seq::new(ws.len(), |i: int| if i == ws.len() - 1 { T::one_spec() } else { running_share(ws, total, i + 1) })
}

/// `idx` splits the CDF at `u`: the entry before it is at most `u` and the entry at it (if
/// any) is not.
pub open spec fn is_split<T: Scalar>(cs: Seq<T>, u: T, idx: int) -> bool {
    &&& 0 <= idx <= cs.len()
    &&& (idx == 0 || cs[idx - 1].le_spec(u))
    &&& (idx == cs.len() || !cs[idx].le_spec(u))
}

/// Stepping back from `idx` over entries equal to their predecessor.
pub open spec fn back_over_ties<T: Scalar>(cs: Seq<T>, idx: int) -> int
    decreases idx,
{
    if idx > 0 && cs[idx].eq_spec(cs[idx - 1]) {
        back_over_ties(cs, idx - 1)
    } else {
        idx
    }
}

/// The inverse-CDF lookup of `u` in a non-empty CDF: a split index (see [`is_split`]) found by
/// bisection, or, when every entry is at most `u`, the last index stepped back over ties.
fn inverse_cdf_index<T: Scalar>(cdf: &[T], u: T) -> (r: usize)
    requires
        cdf@.len() > 0,
    ensures
        r < cdf@.len(),
        (is_split(cdf@, u, r as int)) || (cdf@[cdf@.len() - 1].le_spec(u) && r == back_over_ties(cdf@, cdf@.len() - 1)),
{
    let n = cdf.len();
    let mut lo: usize = 0;
    let mut hi: usize = n;
    while lo < hi
        invariant
            n == cdf@.len(),
            lo <= hi <= n,
            lo == 0 || cdf@[lo - 1].le_spec(u),
            hi == n || !cdf@[hi as int].le_spec(u),
        decreases hi - lo,
    {
        let mid = lo + (hi - lo) / 2;
        if cdf[mid].le(u) {
            lo = mid + 1;
        } else {
            hi = mid;
        }
    }
    if lo < n {
        return lo;
    }
    let mut idx = n - 1;
    while idx > 0 && cdf[idx].eq(cdf[idx - 1])
        invariant
            n == cdf@.len(),
            idx < n,
            back_over_ties(cdf@, idx as int) == back_over_ties(cdf@, n - 1),
        decreases idx,
    {
        idx -= 1;
    }
    idx
}

/// `r` is a category that the uniform value `u` can fall in: a split index of the CDF at
/// `u`, or the last category stepped back over ties when every entry is at most `u`.
pub open spec fn inverse_pick<T: Scalar>(cdf: Seq<T>, u: T, r: usize) -> bool {
    &&& r < cdf.len()
    &&& is_split(cdf, u, r as int) || (cdf[cdf.len() - 1].le_spec(u) && r == back_over_ties(cdf, cdf.len() - 1))
}

/// `r` is a category that the uniform value of some 64-bit draw can fall in (see
/// [`unit_from_bits`] and [`inverse_pick`]).
pub open spec fn drawn_pick<T: Scalar>(cdf: Seq<T>, r: usize) -> bool {
    exists|b: u64| #[trigger] inverse_pick(cdf, unit_from_bits::<T>(b), r)
}

/// `r` is a category that stratum `j` of `n` can fall in: the value `(u + j) / n` for the
/// uniform value `u` of some 64-bit draw.
pub open spec fn drawn_stratum_pick<T: Scalar>(cdf: Seq<T>, j: int, n: int, r: usize) -> bool {
    exists|b: u64|
        #[trigger] inverse_pick(
            cdf,
            unit_from_bits::<T>(b).plus_spec(T::from_int_spec(j as i64)).divide_spec(T::from_int_spec(n as i64)),
            r,
        )
}

/// Stepping back over ties stops at the first index or at an entry that differs from its
/// predecessor.
proof fn lemma_back_over_ties_stops<T: Scalar>(cs: Seq<T>, k: int)
    requires
        0 <= k < cs.len(),
    ensures
        0 <= back_over_ties(cs, k) <= k,
        back_over_ties(cs, k) == 0 || !cs[back_over_ties(cs, k)].eq_spec(cs[back_over_ties(cs, k) - 1]),
    decreases k,
{
    if k > 0 && cs[k].eq_spec(cs[k - 1]) {
        lemma_back_over_ties_stops(cs, k - 1);
    }
}

/// A category whose CDF entry equals the one before it carries no mass, and no uniform value
/// falls in it (when the type's `==` holds of each value with itself, as it does of every
/// non-NaN float).
pub proof fn lemma_tied_category_never_picked<T: Scalar>(cs: Seq<T>, u: T, idx: usize)
    requires
        forall|i: int| 0 <= i < cs.len() ==> (#[trigger] cs[i]).eq_spec(cs[i]),
        0 < idx < cs.len(),
        cs[idx as int] == cs[idx - 1],
    ensures
        !inverse_pick(cs, u, idx),
{
    lemma_back_over_ties_stops(cs, cs.len() - 1);
    assert(cs[idx as int].eq_spec(cs[idx as int]));
}

/// A zero weight other than the first and the last leaves the CDF entry equal to the one
/// before it, over a scalar type where adding zero changes nothing and zero divided by the
/// total is zero.
pub proof fn lemma_zero_weight_ties<T: Scalar>(ws: Seq<T>, total: T, i: int)
    requires
        forall|a: T| #[trigger] a.plus_spec(T::zero_spec()) == a,
        T::zero_spec().divide_spec(total) == T::zero_spec(),
        0 < i < ws.len() - 1,
        ws[i] == T::zero_spec(),
    ensures
        weights_cdf(ws, total)[i] == weights_cdf(ws, total)[i - 1],
{
    assert(running_share(ws, total, i + 1) == running_share(ws, total, i).plus_spec(T::zero_spec()));
}

/// The value in `[0, 1)` that the 53 high bits of a 64-bit draw `x` give:
/// `(x >> 11) * 2^-53`.
pub open spec fn unit_from_bits<T: Scalar>(x: u64) -> T {
    T::from_int_spec((x >> 11u64) as i64).times_spec(T::one_spec().divide_spec(T::from_int_spec(9007199254740992)))
}

/// Computes [`unit_from_bits`].
pub fn unit_from_draw<T: Scalar>(x: u64) -> (r: T)
    ensures
        r == unit_from_bits::<T>(x),
{
    let top = x >> 11u64;
    assert(top < 9007199254740992) by (bit_vector)
        requires
            top == x >> 11u64,
    ;
    T::from_int(top as i64).times(T::one().divide(T::from_int(9007199254740992)))
}

impl<T: Scalar> Distribution<T> for Standard {
    /// The unit value of some 64-bit draw (see [`unit_from_bits`]).
    open spec fn can_give(&self, x: T) -> bool {
        exists|b: u64| x == #[trigger] unit_from_bits::<T>(b)
    }

    /// A uniform value in `[0, 1)` from the 53 high bits of one draw (see
    /// [`unit_from_bits`]).
    fn sample<R: Rng>(&self, rng: &mut R) -> T {
        let b = rng.next_u64();
        let r = unit_from_draw::<T>(b);
        assert(r == unit_from_bits::<T>(b));
        r
    }
}

// ===========================================================================
// Inverse-CDF sampler
// ===========================================================================

/// Inverse-transform sampler for a categorical distribution given by its CDF.
#[derive(Debug, PartialEq)]
pub struct InverseCdfSampler<T> {
    cdf: Vec<T>,
}

impl<T> InverseCdfSampler<T> {
    /// The CDF.
    pub closed spec fn cdf_spec(&self) -> Seq<T> {
        self.cdf@
    }

    /// The CDF is non-empty (every constructor establishes it).
    #[verifier::type_invariant]
    spec fn nonempty(self) -> bool {
        self.cdf@.len() > 0
    }
}

impl<T: Scalar> InverseCdfSampler<T> {
    /// A sampler from an already normalised CDF: `Empty` for an empty one, `InvalidCdf`
    /// unless it is valid (see [`cdf_valid`]).
    pub fn from_cdf(cdf: Vec<T>) -> (r: Result<Self, SamplerError>)
        ensures
            cdf@.len() == 0 ==> r == Err::<Self, SamplerError>(SamplerError::Empty),
            cdf@.len() > 0 && !cdf_valid(cdf@) ==> r == Err::<Self, SamplerError>(SamplerError::InvalidCdf),
            cdf_valid(cdf@) ==> (r matches Ok(s) && s.cdf_spec() == cdf@),
    {
        if cdf.len() == 0 {
            return Err(SamplerError::Empty);
        }
        let mut prev = T::zero();
        for i in 0..cdf.len()
            invariant
                cdf@.len() > 0,
                cdf_from(cdf@, i as int, prev) == cdf_from(cdf@, 0, T::zero_spec()),
        {
            let c = cdf[i];
            if !c.is_finite() || !(T::zero().le(c) && c.le(T::one())) {
                return Err(SamplerError::InvalidCdf);
            }
            if c.lt(prev) {
                return Err(SamplerError::InvalidCdf);
            }
            prev = c;
        }
        let d = prev.minus(T::one());
        let dabs = if d.lt(T::zero()) {
            d.negate()
        } else {
            d
        };
        if tiny_exec::<T>().lt(dabs) {
            return Err(SamplerError::InvalidCdf);
        }
        Ok(InverseCdfSampler { cdf })
    }

    /// A sampler from unnormalised weights: their validation error (see [`weights_total`]), or
    /// the CDF of running shares with the last entry forced to one (see [`weights_cdf`]).
    pub fn from_weights(weights: &[T]) -> (r: Result<Self, SamplerError>)
        ensures
            weights_total(weights@) matches Err(e) ==> r == Err::<Self, SamplerError>(e),
            weights_total(weights@) matches Ok(total) ==> (r matches Ok(s) && s.cdf_spec() == weights_cdf(weights@, total)),
    {
        let total = match validate_weights(weights) {
            Ok(t) => t,
            Err(e) => {
                return Err(e);
            },
        };
        let n = weights.len();
        let mut cdf: Vec<T> = Vec::new();
        let mut acc = T::zero();
        for i in 0..n
            invariant
                n == weights@.len(),
                acc == running_share(weights@, total, i as int),
                cdf@.len() == i,
                forall|k: int| 0 <= k < i ==> #[trigger] cdf@[k] == running_share(weights@, total, k + 1),
        {
            acc = acc.plus(weights[i].divide(total));
            cdf.push(acc);
        }
        let last = n - 1;
        cdf.set(last, T::one());
        assert(cdf@ =~= weights_cdf(weights@, total));
        Ok(InverseCdfSampler { cdf })
    }

    /// Number of categories.
    pub fn len(&self) -> (r: usize)
        ensures
            r == self.cdf_spec().len(),
    {
        self.cdf.len()
    }

    /// `true` when there is no category.
    pub fn is_empty(&self) -> (r: bool)
        ensures
            r == (self.cdf_spec().len() == 0),
    {
        self.cdf.len() == 0
    }

    /// The CDF.
    pub fn cdf(&self) -> (r: &[T])
        ensures
            r@ == self.cdf_spec(),
    {
        self.cdf.as_slice()
    }

    /// The probability of category `i`: `cdf[0]` for the first, the difference of adjacent
    /// entries for the others, zero out of range.
    pub fn probability(&self, i: usize) -> (r: T)
        ensures
            r == if i >= self.cdf_spec().len() {
                T::zero_spec()
            } else if i == 0 {
                self.cdf_spec()[0]
            } else {
                self.cdf_spec()[i as int].minus_spec(self.cdf_spec()[i - 1])
            },
    {
        if i >= self.cdf.len() {
            return T::zero();
        }
        if i == 0 {
            self.cdf[0]
        } else {
            self.cdf[i].minus(self.cdf[i - 1])
        }
    }

    /// The category that the uniform value `u` falls in (see [`inverse_pick`]).
    pub fn sample_index_from_uniform(&self, u: T) -> (r: usize)
        ensures
            inverse_pick(self.cdf_spec(), u, r),
    {
        proof {
            use_type_invariant(self);
        }
        inverse_cdf_index(self.cdf.as_slice(), u)
    }
}

impl<T: Scalar> Clone for InverseCdfSampler<T> {
    /// A copy with the same CDF.
    fn clone(&self) -> (r: Self)
        ensures
            r.cdf_spec() == self.cdf_spec(),
    {
        proof {
            use_type_invariant(self);
        }
        let mut cdf: Vec<T> = Vec::new();
        for i in 0..self.cdf.len()
            invariant
                cdf@ == self.cdf@.take(i as int),
        {
            cdf.push(self.cdf[i]);
            assert(cdf@ =~= self.cdf@.take(i + 1));
        }
        assert(self.cdf@.take(self.cdf@.len() as int) =~= self.cdf@);
        InverseCdfSampler { cdf }
    }
}

impl<T: Scalar> Distribution<usize> for InverseCdfSampler<T> {
    /// One 64-bit draw turned into a uniform value in `[0, 1)` (see [`unit_from_bits`]) and
    /// looked up in the CDF.
    open spec fn can_give(&self, x: usize) -> bool {
        drawn_pick(self.cdf_spec(), x)
    }

    fn sample<R: Rng>(&self, rng: &mut R) -> usize {
        let b = rng.next_u64();
        let u = unit_from_draw::<T>(b);
        let r = self.sample_index_from_uniform(u);
        assert(inverse_pick(self.cdf_spec(), unit_from_bits::<T>(b), r));
        r
    }
}

/// An inverse-CDF sampler from unnormalised weights (see [`InverseCdfSampler::from_weights`]).
pub fn categorical<T: Scalar>(weights: &[T]) -> (r: Result<InverseCdfSampler<T>, SamplerError>)
    ensures
        weights_total(weights@) matches Err(e) ==> r == Err::<InverseCdfSampler<T>, SamplerError>(e),
        weights_total(weights@) matches Ok(total) ==> (r matches Ok(s) && s.cdf_spec() == weights_cdf(weights@, total)),
{
    InverseCdfSampler::from_weights(weights)
}

/// The category that the scaled uniform value `u` falls in by a linear scan from position `k`:
/// the first `i` with `u < ws[i]`, `u` losing each weight it passes; the last category when it
/// passes them all.
pub open spec fn scan_pick<T: Scalar>(ws: Seq<T>, k: int, u: T) -> int
    decreases ws.len() - k,
{
    if k >= ws.len() {
        ws.len() - 1
    } else if u.lt_spec(ws[k]) {
        k
    } else {
        scan_pick(ws, k + 1, u.minus_spec(ws[k]))
    }
}

/// The category of the linear scan (see [`scan_pick`]) for the value `u` in `[0, total)`.
pub fn pick_by_weight<T: Scalar>(weights: &[T], u: T) -> (r: usize)
    requires
        weights@.len() > 0,
    ensures
        r == scan_pick(weights@, 0, u),
        r < weights@.len(),
{
    let mut rest = u;
    for i in 0..weights.len()
        invariant
            weights@.len() > 0,
            scan_pick(weights@, i as int, rest) == scan_pick(weights@, 0, u),
    {
        if rest.lt(weights[i]) {
            return i;
        }
        rest = rest.minus(weights[i]);
    }
    weights.len() - 1
}

/// Draws a category from unnormalised weights by a linear scan: `None` exactly when the
/// weights are invalid (see [`weights_total`]), otherwise the category of one uniform draw
/// scaled by the total (see [`pick_by_weight`]).
pub fn sample_categorical<T: Scalar, R: Rng>(weights: &[T], rng: &mut R) -> (r: Option<usize>)
    ensures
        r is None <==> weights_total(weights@) is Err,
        r matches Some(i) ==> i < weights@.len() && exists|b: u64|
            i == scan_pick(weights@, 0, #[trigger] unit_from_bits::<T>(b).times_spec(weights_total(weights@)->Ok_0)),
{
    let total = match validate_weights(weights) {
        Ok(t) => t,
        Err(_) => {
            return None;
        },
    };
    let b = rng.next_u64();
    let u = unit_from_draw::<T>(b).times(total);
    let i = pick_by_weight(weights, u);
    assert(i == scan_pick(weights@, 0, unit_from_bits::<T>(b).times_spec(weights_total(weights@)->Ok_0)));
    Some(i)
}

// ===========================================================================
// Resampling
// ===========================================================================

/// The resampling scheme of [`SystematicResampler::sample_indices`].
#[derive(Clone, Copy, Debug, PartialEq, Eq)]
pub enum ResampleScheme {
    /// Independent inverse-CDF draws.
    Multinomial,
    /// One random offset and evenly spaced points through the CDF.
    Systematic,
    /// One random offset per slot, inside its own stratum.
    Stratified,
}

/// Resamples indices from a weighted categorical distribution.
#[derive(Debug, PartialEq)]
pub struct SystematicResampler<T> {
    sampler: InverseCdfSampler<T>,
}

impl<T: Scalar> Clone for SystematicResampler<T> {
    /// A copy with the same CDF.
    fn clone(&self) -> (r: Self)
        ensures
            r.cdf_spec() == self.cdf_spec(),
    {
        SystematicResampler { sampler: self.sampler.clone() }
    }
}

/// The point `u0 + j / n` of the systematic scheme.
pub open spec fn ladder_point<T: Scalar>(u0: T, j: int, n: int) -> T {
    u0.plus_spec(T::from_int_spec(j as i64).divide_spec(T::from_int_spec(n as i64)))
}

/// The cursor advanced from `c` while another category follows and the CDF entry at the
/// cursor is at most `u`.
pub open spec fn advance_cursor<T: Scalar>(cs: Seq<T>, u: T, c: int) -> int
    decreases cs.len() - c,
{
    if c + 1 < cs.len() && cs[c].le_spec(u) {
        advance_cursor(cs, u, c + 1)
    } else {
        c
    }
}

/// The first `j` slots of the systematic scheme with offset `u0` and `n` slots: each slot's
/// cursor starts where the previous slot's stopped.
pub open spec fn ladder_slots<T: Scalar>(cs: Seq<T>, u0: T, n: int, j: int) -> Seq<usize>
    decreases j,
{
    if j <= 0 {
        Seq::empty()
    } else {
        let prev = ladder_slots(cs, u0, n, j - 1);
        let start = if j == 1 { 0 } else { prev[j - 2] as int };
        prev.push(advance_cursor(cs, ladder_point(u0, j - 1, n), start) as usize)
    }
}

proof fn lemma_advance_cursor_bounds<T: Scalar>(cs: Seq<T>, u: T, c: int)
    requires
        0 <= c < cs.len(),
    ensures
        c <= advance_cursor(cs, u, c) < cs.len(),
    decreases cs.len() - c,
{
    if c + 1 < cs.len() && cs[c].le_spec(u) {
        lemma_advance_cursor_bounds(cs, u, c + 1);
    }
}

proof fn lemma_ladder_slots<T: Scalar>(cs: Seq<T>, u0: T, n: int, j: int)
    requires
        0 <= j,
        cs.len() > 0,
    ensures
        ladder_slots(cs, u0, n, j).len() == j,
        forall|k: int| 0 <= k < j ==> (#[trigger] ladder_slots(cs, u0, n, j)[k]) < cs.len(),
    decreases j,
{
    if j > 0 {
        lemma_ladder_slots(cs, u0, n, j - 1);
        let prev = ladder_slots(cs, u0, n, j - 1);
        let start = if j == 1 { 0 } else { prev[j - 2] as int };
        lemma_advance_cursor_bounds(cs, ladder_point(u0, j - 1, n), start);
    }
}

impl<T: Scalar> SystematicResampler<T> {
    /// The CDF.
    pub closed spec fn cdf_spec(&self) -> Seq<T> {
        self.sampler.cdf_spec()
    }

    /// A resampler from unnormalised weights (see [`InverseCdfSampler::from_weights`]).
    pub fn from_weights(weights: &[T]) -> (r: Result<Self, SamplerError>)
        ensures
            weights_total(weights@) matches Err(e) ==> r == Err::<Self, SamplerError>(e),
            weights_total(weights@) matches Ok(total) ==> (r matches Ok(s) && s.cdf_spec() == weights_cdf(weights@, total)),
    {
        match InverseCdfSampler::from_weights(weights) {
            Ok(sampler) => Ok(SystematicResampler { sampler }),
            Err(e) => Err(e),
        }
    }

    /// A resampler from a normalised CDF (see [`InverseCdfSampler::from_cdf`]).
    pub fn new(cdf: Vec<T>) -> (r: Result<Self, SamplerError>)
        ensures
            cdf@.len() == 0 ==> r == Err::<Self, SamplerError>(SamplerError::Empty),
            cdf@.len() > 0 && !cdf_valid(cdf@) ==> r == Err::<Self, SamplerError>(SamplerError::InvalidCdf),
            cdf_valid(cdf@) ==> (r matches Ok(s) && s.cdf_spec() == cdf@),
    {
        match InverseCdfSampler::from_cdf(cdf) {
            Ok(sampler) => Ok(SystematicResampler { sampler }),
            Err(e) => Err(e),
        }
    }

    /// Number of categories.
    pub fn len(&self) -> (r: usize)
        ensures
            r == self.cdf_spec().len(),
    {
        self.sampler.len()
    }

    /// `true` when there is no category.
    pub fn is_empty(&self) -> (r: bool)
        ensures
            r == (self.cdf_spec().len() == 0),
    {
        self.sampler.is_empty()
    }

    /// The CDF.
    pub fn cdf(&self) -> (r: &[T])
        ensures
            r@ == self.cdf_spec(),
    {
        self.sampler.cdf()
    }

    /// The systematic scheme with offset `u0` into all of `out` (see [`ladder_slots`]).
    pub fn systematic_indices_from(&self, u0: T, out: &mut [usize])
        requires
            old(out)@.len() <= i64::MAX,
        ensures
            final(out)@ == ladder_slots(self.cdf_spec(), u0, old(out)@.len() as int, old(out)@.len() as int),
    {
        proof {
            use_type_invariant(&self.sampler);
        }
        let cdf = self.sampler.cdf();
        let len = cdf.len();
        let n = out.len();
        let mut cursor: usize = 0;
        for j in 0..n
            invariant
                len == cdf@.len(),
                n == out@.len(),
                n <= i64::MAX,
                cdf@ == self.cdf_spec(),
                cdf@.len() > 0,
                cursor < cdf@.len(),
                j > 0 ==> cursor == ladder_slots(cdf@, u0, n as int, j as int)[j - 1],
                j == 0 ==> cursor == 0,
                forall|k: int| 0 <= k < j ==> #[trigger] out@[k] == ladder_slots(cdf@, u0, n as int, j as int)[k],
        {
            proof {
                lemma_ladder_slots(cdf@, u0, n as int, j as int);
            }
            let u = u0.plus(T::from_int(j as i64).divide(T::from_int(n as i64)));
            let ghost start = cursor as int;
            while cursor + 1 < len && cdf[cursor].le(u)
                invariant
                    len == cdf@.len(),
                    cdf@.len() > 0,
                    start <= cursor < cdf@.len(),
                    advance_cursor(cdf@, u, cursor as int) == advance_cursor(cdf@, u, start),
                decreases cdf@.len() - cursor,
            {
                cursor += 1;
            }
            let ghost before = out@;
            out[j] = cursor;
            proof {
                lemma_ladder_slots(cdf@, u0, n as int, j + 1);
                assert forall|k: int| 0 <= k < j + 1 implies #[trigger] out@[k] == ladder_slots(cdf@, u0, n as int, j + 1)[k] by {
                    if k < j {
                        assert(out@[k] == before[k]);
                    }
                }
            }
        }
        proof {
            lemma_ladder_slots(cdf@, u0, n as int, n as int);
        }
        assert(out@ =~= ladder_slots(self.cdf_spec(), u0, n as int, n as int));
    }

    /// Resamples `out.len()` indices into `out` with the chosen scheme: multinomial draws one
    /// uniform value per slot, systematic one offset `u / n` for all slots (see
    /// [`SystematicResampler::systematic_indices_from`]), stratified `(u + j) / n` for slot `j`
    /// with a fresh `u` per slot; each uniform value `u` comes from one 64-bit draw (see
    /// [`unit_from_bits`]) and is looked up in the CDF (see [`inverse_pick`]). Every index is a
    /// category.
    pub fn sample_indices<R: Rng>(&self, rng: &mut R, scheme: ResampleScheme, out: &mut [usize])
        requires
            old(out)@.len() <= i64::MAX,
        ensures
            final(out)@.len() == old(out)@.len(),
            forall|j: int| 0 <= j < final(out)@.len() ==> #[trigger] final(out)@[j] < self.cdf_spec().len(),
            scheme == ResampleScheme::Multinomial ==> forall|j: int|
                0 <= j < final(out)@.len() ==> drawn_pick(self.cdf_spec(), #[trigger] final(out)@[j]),
            scheme == ResampleScheme::Systematic && final(out)@.len() > 0 ==> exists|b: u64|
                final(out)@ == ladder_slots(
                    self.cdf_spec(),
                    #[trigger] unit_from_bits::<T>(b).divide_spec(T::from_int_spec(final(out)@.len() as i64)),
                    final(out)@.len() as int,
                    final(out)@.len() as int,
                ),
            scheme == ResampleScheme::Stratified ==> forall|j: int|
                0 <= j < final(out)@.len() ==> drawn_stratum_pick(
                    self.cdf_spec(),
                    j,
                    final(out)@.len() as int,
                    #[trigger] final(out)@[j],
                ),
    {
        proof {
            use_type_invariant(&self.sampler);
        }
        let n = out.len();
        if n == 0 {
            return;
        }
        match scheme {
            ResampleScheme::Multinomial => {
                let ghost mut draws: Seq<u64> = Seq::empty();
                for j in 0..n
                    invariant
                        n == out@.len(),
                        draws.len() == j,
                        forall|k: int| 0 <= k < j ==> #[trigger] out@[k] < self.cdf_spec().len(),
                        forall|k: int|
                            0 <= k < j ==> inverse_pick(self.cdf_spec(), unit_from_bits::<T>(draws[k]), #[trigger] out@[k]),
                {
                    let b = rng.next_u64();
                    let u = unit_from_draw::<T>(b);
                    out[j] = self.sampler.sample_index_from_uniform(u);
                    proof {
                        draws = draws.push(b);
                    }
                }
                assert forall|j: int| 0 <= j < out@.len() implies drawn_pick(self.cdf_spec(), #[trigger] out@[j]) by {
                    assert(inverse_pick(self.cdf_spec(), unit_from_bits::<T>(draws[j]), out@[j]));
                }
            },
            ResampleScheme::Systematic => {
                let b = rng.next_u64();
                let u0 = unit_from_draw::<T>(b).divide(T::from_int(n as i64));
                self.systematic_indices_from(u0, out);
                proof {
                    lemma_ladder_slots(self.cdf_spec(), u0, n as int, n as int);
                }
            },
            ResampleScheme::Stratified => {
                let ghost mut draws: Seq<u64> = Seq::empty();
                for j in 0..n
                    invariant
                        n == out@.len(),
                        n <= i64::MAX,
                        draws.len() == j,
                        forall|k: int| 0 <= k < j ==> #[trigger] out@[k] < self.cdf_spec().len(),
                        forall|k: int|
                            0 <= k < j ==> inverse_pick(
                                self.cdf_spec(),
                                unit_from_bits::<T>(draws[k]).plus_spec(T::from_int_spec(k as i64)).divide_spec(
                                    T::from_int_spec(n as i64),
                                ),
                                #[trigger] out@[k],
                            ),
                {
                    let b = rng.next_u64();
                    let u = unit_from_draw::<T>(b).plus(T::from_int(j as i64)).divide(T::from_int(n as i64));
                    out[j] = self.sampler.sample_index_from_uniform(u);
                    proof {
                        draws = draws.push(b);
                    }
                }
                assert forall|j: int| 0 <= j < out@.len() implies drawn_stratum_pick(
                    self.cdf_spec(),
                    j,
                    out@.len() as int,
                    #[trigger] out@[j],
                ) by {
                    assert(inverse_pick(
                        self.cdf_spec(),
                        unit_from_bits::<T>(draws[j]).plus_spec(T::from_int_spec(j as i64)).divide_spec(
                            T::from_int_spec(n as i64),
                        ),
                        out@[j],
                    ));
                }
            },
        }
    }
}

// ===========================================================================
// Densities and rejection sampling
// ===========================================================================

/// A probability density on the real line, evaluated for the acceptance test of
/// [`RejectionSampler`]. It should be non-negative everywhere.
///
/// `defined_at(x)` says where `density` may be called; `gives(x, d)` says which values it
/// may return there.
pub trait Density<T> {
    /// Where the density may be evaluated.
    spec fn defined_at(&self, x: T) -> bool;

    /// `d` is a value that the density can take at `x`.
    spec fn gives(&self, x: T, d: T) -> bool;

    /// The density at `x`.
    fn density(&self, x: T) -> (d: T)
        requires
            self.defined_at(x),
        ensures
            self.gives(x, d),
    ;
}

/// A closure `Fn(T) -> T` used as a [`Density`]: defined where the closure may be called,
/// with the values that the closure may return.
pub struct DensityFn<F>(pub F);

impl<T, F: Fn(T) -> T> Density<T> for DensityFn<F> {
    open spec fn defined_at(&self, x: T) -> bool {
        self.0.requires((x,))
    }

    open spec fn gives(&self, x: T, d: T) -> bool {
        self.0.ensures((x,), d)
    }

    fn density(&self, x: T) -> (d: T) {
        (self.0)(x)
    }
}

/// The continuous uniform distribution over `[lo, hi)`.
pub struct Uniform<T: Scalar> {
    lo: T,
    hi: T,
    width: T,
}

/// Whether `[lo, hi)` is a valid interval: both bounds finite and `hi` not at or below `lo`.
pub open spec fn valid_interval<T: Scalar>(lo: T, hi: T) -> bool {
    lo.is_finite_spec() && hi.is_finite_spec() && !hi.le_spec(lo)
}

/// The uniform density on `[lo, hi)` at `x`: `1 / (hi - lo)` inside, zero outside.
pub open spec fn uniform_density<T: Scalar>(lo: T, hi: T, x: T) -> T {
    if lo.le_spec(x) && x.lt_spec(hi) {
        T::one_spec().divide_spec(hi.minus_spec(lo))
    } else {
        T::zero_spec()
    }
}

impl<T: Scalar> Uniform<T> {
    #[verifier::type_invariant]
    spec fn uniform_wf(self) -> bool {
        valid_interval(self.lo, self.hi) && self.width == self.hi.minus_spec(self.lo)
    }
}

impl<T: Scalar> View for Uniform<T> {
    type V = (T, T);

    /// The bounds `(lo, hi)`.
    closed spec fn view(&self) -> (T, T) {
        (self.lo, self.hi)
    }
}

impl<T: Scalar> Uniform<T> {
    /// The uniform distribution on `[lo, hi)`; `InvalidInterval` exactly when the interval is
    /// not valid (see [`valid_interval`]).
    pub fn new(lo: T, hi: T) -> (r: Result<Self, SamplerError>)
        ensures
            valid_interval(lo, hi) ==> (r matches Ok(u) && u@ == (lo, hi)),
            !valid_interval(lo, hi) ==> r == Err::<Self, SamplerError>(SamplerError::InvalidInterval),
    {
        if !lo.is_finite() || !hi.is_finite() || hi.le(lo) {
            return Err(SamplerError::InvalidInterval);
        }
        Ok(Uniform { lo, hi, width: hi.minus(lo) })
    }

    /// The lower bound.
    pub fn lo(&self) -> (r: T)
        ensures
            r == self@.0,
    {
        self.lo
    }

    /// The upper bound.
    pub fn hi(&self) -> (r: T)
        ensures
            r == self@.1,
    {
        self.hi
    }
}

impl<T: Scalar> Distribution<T> for Uniform<T> {
    /// `lo + u * (hi - lo)` for one uniform value `u` in `[0, 1)` (see [`unit_from_bits`]).
    open spec fn can_give(&self, x: T) -> bool {
        exists|b: u64| x == self@.0.plus_spec(#[trigger] unit_from_bits::<T>(b).times_spec(self@.1.minus_spec(self@.0)))
    }

    fn sample<R: Rng>(&self, rng: &mut R) -> T {
        proof {
            use_type_invariant(self);
        }
        let b = rng.next_u64();
        let u = unit_from_draw::<T>(b);
        let r = self.lo.plus(u.times(self.width));
        assert(r == self@.0.plus_spec(unit_from_bits::<T>(b).times_spec(self@.1.minus_spec(self@.0))));
        r
    }
}

impl<T: Scalar> Density<T> for Uniform<T> {
    open spec fn defined_at(&self, x: T) -> bool {
        true
    }

    open spec fn gives(&self, x: T, d: T) -> bool {
        d == uniform_density(self@.0, self@.1, x)
    }

    fn density(&self, x: T) -> (d: T) {
        proof {
            use_type_invariant(self);
        }
        if self.lo.le(x) && x.lt(self.hi) {
            T::one().divide(self.width)
        } else {
            T::zero()
        }
    }
}

/// The Bernoulli distribution with success probability `p`, drawing `bool`s.
pub struct Bernoulli<T> {
    p: T,
}

/// Whether `p` is a probability: finite and within `[0, 1]`.
pub open spec fn valid_probability<T: Scalar>(p: T) -> bool {
    p.is_finite_spec() && T::zero_spec().le_spec(p) && p.le_spec(T::one_spec())
}

impl<T: Scalar> Bernoulli<T> {
    /// The success probability.
    pub closed spec fn p_spec(&self) -> T {
        self.p
    }

    /// The Bernoulli distribution with success probability `p`; `InvalidProbability` exactly
    /// when `p` is not a probability (see [`valid_probability`]).
    pub fn new(p: T) -> (r: Result<Self, SamplerError>)
        ensures
            valid_probability(p) ==> (r matches Ok(b) && b.p_spec() == p),
            !valid_probability(p) ==> r == Err::<Self, SamplerError>(SamplerError::InvalidProbability),
    {
        if !p.is_finite() || !(T::zero().le(p) && p.le(T::one())) {
            return Err(SamplerError::InvalidProbability);
        }
        Ok(Bernoulli { p })
    }

    /// The success probability.
    pub fn p(&self) -> (r: T)
        ensures
            r == self.p_spec(),
    {
        self.p
    }
}

impl<T: Scalar> Distribution<bool> for Bernoulli<T> {
    /// Whether one uniform value in `[0, 1)` (see [`unit_from_bits`]) falls below `p`.
    open spec fn can_give(&self, x: bool) -> bool {
        exists|b: u64| x == #[trigger] unit_from_bits::<T>(b).lt_spec(self.p_spec())
    }

    fn sample<R: Rng>(&self, rng: &mut R) -> bool {
        let b = rng.next_u64();
        let r = unit_from_draw::<T>(b).lt(self.p);
        assert(r == unit_from_bits::<T>(b).lt_spec(self.p_spec()));
        r
    }
}

/// The number of attempts a new [`RejectionSampler`] makes before it gives up.
pub const DEFAULT_MAX_ITERATIONS: usize = 1024;

/// Rejection sampling of a target density through a proposal that can both draw and
/// evaluate its own density, with envelope constant `m` (meant to satisfy
/// `m * proposal(x) >= target(x)` everywhere).
pub struct RejectionSampler<D: Density<T>, P: Distribution<T> + Density<T>, T: Scalar> {
    target: D,
    proposal: P,
    m: T,
    max_iterations: usize,
}

/// Whether `m` can serve as an envelope constant: finite and strictly positive.
pub open spec fn valid_bound<T: Scalar>(m: T) -> bool {
    m.is_finite_spec() && !m.le_spec(T::zero_spec())
}

impl<D: Density<T>, P: Distribution<T> + Density<T>, T: Scalar> RejectionSampler<D, P, T> {
    #[verifier::type_invariant]
    spec fn rejection_wf(self) -> bool {
        valid_bound(self.m) && forall|x: T|
            #![trigger self.target.defined_at(x)]
            #![trigger self.proposal.defined_at(x)]
            self.target.defined_at(x) && self.proposal.defined_at(x)
    }

    /// The target density.
    pub closed spec fn target_spec(&self) -> D {
        self.target
    }

    /// The proposal distribution.
    pub closed spec fn proposal_spec(&self) -> P {
        self.proposal
    }

    /// The envelope constant.
    pub closed spec fn m_spec(&self) -> T {
        self.m
    }

    /// The number of attempts before giving up.
    pub closed spec fn max_iterations_spec(&self) -> usize {
        self.max_iterations
    }

    /// Whether `x` passes the acceptance test for some proposal density `pd > 0`, target
    /// density `td` and uniform value `u` from a 64-bit draw: `u * m * pd <= td`.
    pub open spec fn accepted(&self, x: T) -> bool {
        exists|pd: T, td: T, b: u64|
            #![trigger self.proposal_spec().gives(x, pd), self.target_spec().gives(x, td), unit_from_bits::<T>(b)]
            self.proposal_spec().gives(x, pd) && !pd.le_spec(T::zero_spec()) && self.target_spec().gives(x, td)
                && unit_from_bits::<T>(b).times_spec(self.m_spec()).times_spec(pd).le_spec(td)
    }

    /// Whether an attempt at `x` is rejected for some proposal density `pd` at `x`: either
    /// `pd <= 0`, or for some target density `td` and uniform value `u` from a 64-bit draw,
    /// `u * m * pd <= td` fails.
    pub open spec fn rejected(&self, x: T) -> bool {
        ||| exists|pd: T| #[trigger] self.proposal_spec().gives(x, pd) && pd.le_spec(T::zero_spec())
        ||| exists|pd: T, td: T, b: u64|
            #![trigger self.proposal_spec().gives(x, pd), self.target_spec().gives(x, td), unit_from_bits::<T>(b)]
            self.proposal_spec().gives(x, pd) && self.target_spec().gives(x, td)
                && !unit_from_bits::<T>(b).times_spec(self.m_spec()).times_spec(pd).le_spec(td)
    }

    /// A rejection sampler with envelope constant `m` and the default number of attempts;
    /// `InvalidBound` exactly when `m` is not finite and positive. Both densities must be
    /// defined on the whole line.
    pub fn new(target: D, proposal: P, m: T) -> (r: Result<Self, SamplerError>)
        requires
            forall|x: T| #[trigger] target.defined_at(x) && proposal.defined_at(x),
        ensures
            valid_bound(m) ==> (r matches Ok(s) && s.target_spec() == target && s.proposal_spec() == proposal
                && s.m_spec() == m && s.max_iterations_spec() == DEFAULT_MAX_ITERATIONS),
            !valid_bound(m) ==> r == Err::<Self, SamplerError>(SamplerError::InvalidBound),
    {
        if !m.is_finite() || m.le(T::zero()) {
            return Err(SamplerError::InvalidBound);
        }
        Ok(RejectionSampler { target, proposal, m, max_iterations: DEFAULT_MAX_ITERATIONS })
    }

    /// The target density.
    pub fn target(&self) -> (r: &D)
        ensures
            *r == self.target_spec(),
    {
        &self.target
    }

    /// The proposal distribution.
    pub fn proposal(&self) -> (r: &P)
        ensures
            *r == self.proposal_spec(),
    {
        &self.proposal
    }

    /// The envelope constant.
    pub fn m(&self) -> (r: T)
        ensures
            r == self.m_spec(),
    {
        self.m
    }

    /// The same sampler making at most `n` attempts.
    pub fn max_iterations(self, n: usize) -> (r: Self)
        ensures
            r.target_spec() == self.target_spec(),
            r.proposal_spec() == self.proposal_spec(),
            r.m_spec() == self.m_spec(),
            r.max_iterations_spec() == n,
    {
        proof {
            use_type_invariant(&self);
        }
        RejectionSampler { target: self.target, proposal: self.proposal, m: self.m, max_iterations: n }
    }

    /// The best-case acceptance probability `1 / m`.
    pub fn acceptance_probability(&self) -> (r: T)
        ensures
            r == T::one_spec().divide_spec(self.m_spec()),
    {
        T::one().divide(self.m)
    }

    /// Up to `max_iterations` attempts: draw `x` from the proposal, skip it when the proposal
    /// density there is not positive, otherwise accept it when `u * m * pd <= td` for a fresh
    /// uniform `u`. `None` exactly when every one of the `max_iterations` attempts is
    /// rejected (always so when no attempt is allowed): there are then that many proposals,
    /// each rejected (see [`RejectionSampler::rejected`]); an accepted value passes the test
    /// (see [`RejectionSampler::accepted`]).
    pub fn try_sample<R: Rng>(&self, rng: &mut R) -> (r: Option<T>)
        ensures
            r matches Some(x) ==> self.accepted(x),
            r is None ==> exists|xs: Seq<T>|
                xs.len() == self.max_iterations_spec() && forall|k: int|
                    0 <= k < xs.len() ==> self.rejected(#[trigger] xs[k]),
            self.max_iterations_spec() == 0 ==> r is None,
    {
        proof {
            use_type_invariant(self);
        }
        let mut i: usize = 0;
        let ghost mut xs: Seq<T> = Seq::empty();
        while i < self.max_iterations
            invariant
                forall|y: T|
                    #![trigger self.target.defined_at(y)]
                    #![trigger self.proposal.defined_at(y)]
                    self.target.defined_at(y) && self.proposal.defined_at(y),
                i <= self.max_iterations,
                xs.len() == i,
                forall|k: int| 0 <= k < xs.len() ==> self.rejected(#[trigger] xs[k]),
            decreases self.max_iterations - i,
        {
            i += 1;
            let x = self.proposal.sample(rng);
            assert(self.proposal.defined_at(x) && self.target.defined_at(x));
            let pd = self.proposal.density(x);
            if pd.le(T::zero()) {
                proof {
                    assert(self.proposal_spec().gives(x, pd) && pd.le_spec(T::zero_spec()));
                    assert(self.rejected(x));
                    let xs1 = xs.push(x);
                    assert forall|k: int| 0 <= k < xs1.len() implies self.rejected(#[trigger] xs1[k]) by {
                        if k < xs.len() {
                            assert(xs1[k] == xs[k]);
                        }
                    }
                    xs = xs1;
                }
                continue;
            }
            let td = self.target.density(x);
            let b = rng.next_u64();
            let u = unit_from_draw::<T>(b);
            if u.times(self.m).times(pd).le(td) {
                assert(self.proposal_spec().gives(x, pd) && self.target_spec().gives(x, td)
                    && unit_from_bits::<T>(b) == u);
                return Some(x);
            }
            proof {
                assert(self.proposal_spec().gives(x, pd) && self.target_spec().gives(x, td)
                    && unit_from_bits::<T>(b) == u);
                assert(self.rejected(x));
                let xs1 = xs.push(x);
                assert forall|k: int| 0 <= k < xs1.len() implies self.rejected(#[trigger] xs1[k]) by {
                    if k < xs.len() {
                        assert(xs1[k] == xs[k]);
                    }
                }
                xs = xs1;
            }
        }
        None
    }
}

impl<D: Density<T>, P: Distribution<T> + Density<T>, T: Scalar> Distribution<T> for RejectionSampler<D, P, T> {
    /// A value that passes the acceptance test (see [`RejectionSampler::accepted`]), or one
    /// that the proposal can give.
    open spec fn can_give(&self, x: T) -> bool {
        self.accepted(x) || self.proposal_spec().can_give(x)
    }

    /// An accepted value (see [`RejectionSampler::try_sample`]), or a plain proposal draw
    /// when every attempt is rejected.
    fn sample<R: Rng>(&self, rng: &mut R) -> T {
        match self.try_sample(rng) {
            Some(x) => x,
            None => self.proposal.sample(rng),
        }
    }
}

} // verus!
