//! Randomness: the bit-source and distribution traits, the SplitMix64 generator, and the
//! sampling strategies built on integers (uniform indices, shuffling, reservoir sampling).
use vstd::prelude::*;

verus! {

broadcast use vstd::seq_lib::group_to_multiset_ensures;

/// A source of pseudo-random bits.
pub trait Rng {
    /// The next 64 bits of pseudo-random output.
    fn next_u64(&mut self) -> u64;
}

/// A distribution that can produce samples of type `T`.
pub trait Distribution<T> {
    /// `x` is a value that one draw can give.
    spec fn can_give(&self, x: T) -> bool;

    /// Draw a single sample using `rng`.
    fn sample<R: Rng>(&self, rng: &mut R) -> (r: T)
        ensures
            self.can_give(r),
    ;
}

/// The standard uniform distribution over a type's natural range.
#[derive(Clone, Copy, Debug, Default, PartialEq, Eq)]
pub struct Standard;

impl Distribution<u64> for Standard {
    /// Every 64-bit value.
    open spec fn can_give(&self, x: u64) -> bool {
        true
    }

    /// One full 64-bit draw.
    fn sample<R: Rng>(&self, rng: &mut R) -> u64 {
        rng.next_u64()
    }
}

/// The high 32 bits of a 64-bit draw.
pub open spec fn high_half(b: u64) -> u32 {
    (b >> 32u64) as u32
}

impl Distribution<u32> for Standard {
    /// The high half of a 64-bit value (every 32-bit value is one).
    open spec fn can_give(&self, x: u32) -> bool {
        exists|b: u64| x == #[trigger] high_half(b)
    }

    /// The high 32 bits of one draw.
    fn sample<R: Rng>(&self, rng: &mut R) -> u32 {
        let b = rng.next_u64();
        let r = (b >> 32) as u32;
        assert(r == high_half(b));
        r
    }
}

impl Distribution<i64> for Standard {
    /// Every 64-bit signed value.
    open spec fn can_give(&self, x: i64) -> bool {
        true
    }

    /// One draw reinterpreted as a signed integer.
    fn sample<R: Rng>(&self, rng: &mut R) -> i64 {
        rng.next_u64() as i64
    }
}

impl Distribution<bool> for Standard {
    /// Both truth values.
    open spec fn can_give(&self, x: bool) -> bool {
        true
    }

    /// The lowest bit of one draw.
    fn sample<R: Rng>(&self, rng: &mut R) -> bool {
        (rng.next_u64() & 1) == 1
    }
}

/// Bulk sampling, available for every [`Distribution`].
pub trait Sampler<T>: Distribution<T> {
    /// Draw a single sample.
    fn sample_one<R: Rng>(&self, rng: &mut R) -> (r: T)
        ensures
            self.can_give(r),
    {
        self.sample(rng)
    }

    /// Fill `buf` with independent samples, in order: its length is unchanged and every
    /// entry is overwritten by a value that a draw can give.
    fn sample_slice<R: Rng>(&self, rng: &mut R, buf: &mut [T])
        ensures
            final(buf)@.len() == old(buf)@.len(),
            forall|i: int| 0 <= i < final(buf)@.len() ==> self.can_give(#[trigger] final(buf)@[i]),
    {
        let n = buf.len();
        for i in 0..n
            invariant
                n == buf@.len(),
                forall|k: int| 0 <= k < i ==> self.can_give(#[trigger] buf@[k]),
        {
            buf[i] = self.sample(rng);
        }
    }
}

impl<D: Distribution<T>, T> Sampler<T> for D {

}

// ===========================================================================
// SplitMix64
// ===========================================================================

/// The increment that SplitMix64 adds to its state at every step.
pub const SPLITMIX_GAMMA: u64 = 0x9E37_79B9_7F4A_7C15;

/// The output function of SplitMix64 applied to the advanced state `z`.
pub open spec fn splitmix_mix(z: u64) -> u64 {
    let z1 = (z ^ (z >> 30)).wrapping_mul(0xBF58_476D_1CE4_E5B9);
    let z2 = (z1 ^ (z1 >> 27)).wrapping_mul(0x94D0_49BB_1331_11EB);
    z2 ^ (z2 >> 31)
}

/// SplitMix64: a small, fast, deterministic 64-bit generator (not cryptographically
/// secure).
#[derive(Clone, Debug, PartialEq, Eq)]
pub struct SplitMix64 {
    state: u64,
}

impl View for SplitMix64 {
    type V = u64;

    /// The generator's state.
    closed spec fn view(&self) -> u64 {
        self.state
    }
}

impl SplitMix64 {
    /// A generator with the given state.
    pub fn new(state: u64) -> (r: Self)
        ensures
            r@ == state,
    {
        SplitMix64 { state }
    }

    /// A generator seeded from `seed` (the canonical entry point): the state is
    /// `seed + GAMMA`, wrapping.
    pub fn seed_from_u64(seed: u64) -> (r: Self)
        ensures
            r@ == seed.wrapping_add(SPLITMIX_GAMMA),
    {
        SplitMix64::new(seed.wrapping_add(SPLITMIX_GAMMA))
    }
}

impl Rng for SplitMix64 {
    /// Advance the state by `GAMMA` (wrapping) and return the mix of the new state.
    fn next_u64(&mut self) -> (r: u64)
        ensures
            final(self)@ == old(self)@.wrapping_add(SPLITMIX_GAMMA),
            r == splitmix_mix(final(self)@),
    {
        self.state = self.state.wrapping_add(SPLITMIX_GAMMA);
        let mut z = self.state;
        z = (z ^ (z >> 30)).wrapping_mul(0xBF58_476D_1CE4_E5B9);
        z = (z ^ (z >> 27)).wrapping_mul(0x94D0_49BB_1331_11EB);
        z ^ (z >> 31)
    }
}

impl<'a, R: Rng> Rng for &'a mut R {
    /// The borrowed generator's next draw.
    fn next_u64(&mut self) -> u64 {
        (**self).next_u64()
    }
}

// ===========================================================================
// Uniform indices, shuffling
// ===========================================================================

/// The swap of two slice elements, as the standard library documents it (it panics when
/// either index is out of bounds, which the precondition rules out).
pub assume_specification<Elem>[ <[Elem]>::swap ](s: &mut [Elem], a: usize, b: usize)
    requires
        a < old(s)@.len(),
        b < old(s)@.len(),
    ensures
        final(s)@ == old(s)@.update(a as int, old(s)@[b as int]).update(b as int, old(s)@[a as int]),
;

/// Replaces element `i` of `s` by `v` and returns the element that was there, by
/// `core::mem::replace` on that element.
#[verifier::external_body]
fn replace_at<T>(s: &mut [T], i: usize, v: T) -> (r: T)
    requires
        i < old(s)@.len(),
    ensures
        r == old(s)@[i as int],
        final(s)@ == old(s)@.update(i as int, v),
{
    core::mem::replace(&mut s[i], v)
}

/// The bound below which a 64-bit draw is accepted for a uniform index in `0..n`: every
/// value for a power of two, else the largest multiple of `n` that fits in 64 bits.
pub open spec fn rejection_limit(n: u64) -> u64 {
    if n & (n - 1) as u64 == 0 {
        u64::MAX
    } else {
        ((u64::MAX / n) * n) as u64
    }
}

/// The decision that [`uniform_index`] takes on one draw `x` for `n >= 2`: the index
/// `x mod n` when `x` is below [`rejection_limit`], else `None` (draw again).
pub fn reduce_draw(x: u64, n: usize) -> (r: Option<usize>)
    requires
        n >= 2,
    ensures
        r == if x < rejection_limit(n as u64) {
            Some((x % (n as u64)) as usize)
        } else {
            None::<usize>
        },
        r matches Some(i) ==> i < n,
{
    let span = n as u64;
    let limit = if span & (span - 1) == 0 {
        u64::MAX
    } else {
        assert((u64::MAX / span) * span <= u64::MAX) by (nonlinear_arith)
            requires
                span >= 2,
        ;
        (u64::MAX / span) * span
    };
    if x < limit {
        Some((x % span) as usize)
    } else {
        None
    }
}

/// A uniform index in `0..n` by rejection sampling on 64-bit draws ([`reduce_draw`]);
/// `None` exactly when `n == 0`. The draws are bounded by `u64::MAX` attempts, after
/// which the last draw is reduced modulo `n` (with a power-of-two or larger-than-half
/// acceptance region per draw, exhausting them does not happen in practice).
pub fn uniform_index<R: Rng>(rng: &mut R, n: usize) -> (r: Option<usize>)
    ensures
        r is None <==> n == 0,
        r matches Some(i) ==> i < n,
{
    if n == 0 {
        return None;
    }
    if n == 1 {
        return Some(0);
    }
    let mut attempts: u64 = 0;
    let mut last: u64 = 0;
    while attempts < u64::MAX
        invariant
            n >= 2,
        decreases u64::MAX - attempts,
    {
        let x = rng.next_u64();
        if let Some(i) = reduce_draw(x, n) {
            return Some(i);
        }
        last = x;
        attempts += 1;
    }
    Some((last % (n as u64)) as usize)
}

/// `s` with the elements at positions `a` and `b` exchanged.
pub open spec fn swapped<A>(s: Seq<A>, a: int, b: int) -> Seq<A> {
    s.update(a, s[b]).update(b, s[a])
}

/// The first `t` Fisher-Yates steps on `s` (of length `n`): step `k` exchanges position
/// `n - 1 - k` with the chosen position `js[k]`.
pub open spec fn fisher_yates_steps<A>(s: Seq<A>, js: Seq<int>, n: int, t: int) -> Seq<A>
    decreases t,
{
    if t <= 0 {
        s
    } else {
        swapped(fisher_yates_steps(s, js, n, t - 1), n - t, js[t - 1])
    }
}

/// The number of Fisher-Yates steps for `n` elements: one per position from the last down
/// to the second.
pub open spec fn fisher_yates_len(n: int) -> int {
    if n > 1 {
        n - 1
    } else {
        0
    }
}

/// `js` is a valid choice of positions for a Fisher-Yates shuffle of `n` elements: step `k`
/// picks a position in `0 ..= n - 1 - k`.
pub open spec fn fisher_yates_choices(js: Seq<int>, n: int) -> bool {
    &&& js.len() == fisher_yates_len(n)
    &&& forall|k: int| 0 <= k < js.len() ==> 0 <= #[trigger] js[k] <= n - 1 - k
}

/// In-place Fisher-Yates shuffle: for each position from the last down to the second, the
/// element there is exchanged with one at a uniformly drawn position at or before it (see
/// [`uniform_index`]). The result is the Fisher-Yates outcome of some valid choice of
/// positions (see [`fisher_yates_steps`]), hence a permutation of the input.
pub fn shuffle<R: Rng, T>(slice: &mut [T], rng: &mut R)
    ensures
        final(slice)@.len() == old(slice)@.len(),
        final(slice)@.to_multiset() == old(slice)@.to_multiset(),
        exists|js: Seq<int>|
            fisher_yates_choices(js, old(slice)@.len() as int) && final(slice)@ == #[trigger] fisher_yates_steps(
                old(slice)@,
                js,
                old(slice)@.len() as int,
                fisher_yates_len(old(slice)@.len() as int),
            ),
{
    let n = slice.len();
    let ghost orig = slice@;
    let ghost mut js: Seq<int> = Seq::empty();
    let mut i = n;
    while i > 1
        invariant
            n == slice@.len(),
            n == orig.len(),
            i <= n,
            n > 1 ==> i >= 1,
            n <= 1 ==> i == n,
            slice@.to_multiset() == orig.to_multiset(),
            js.len() == n - i,
            forall|k: int| 0 <= k < js.len() ==> 0 <= #[trigger] js[k] <= n - 1 - k,
            slice@ == fisher_yates_steps(orig, js, n as int, n - i),
        decreases i,
    {
        i -= 1;
        let j = match uniform_index(rng, i + 1) {
            Some(j) => j,
            None => {
                assert(false);
                0
            },
        };
        let ghost before = slice@;
        let ghost js0 = js;
        slice.swap(i, j);
        proof {
            lemma_swap_to_multiset(before, i as int, j as int);
            js = js.push(j as int);
            lemma_fisher_yates_prefix(orig, js0, js, n as int, n - i - 1);
            assert(slice@ == swapped(before, i as int, j as int));
        }
    }
    proof {
        assert(n - i == fisher_yates_len(n as int));
    }
}

/// The first `t` Fisher-Yates steps depend only on the first `t` choices.
proof fn lemma_fisher_yates_prefix<A>(s: Seq<A>, js1: Seq<int>, js2: Seq<int>, n: int, t: int)
    requires
        0 <= t <= js1.len(),
        t <= js2.len(),
        forall|k: int| 0 <= k < t ==> js1[k] == js2[k],
    ensures
        fisher_yates_steps(s, js1, n, t) == fisher_yates_steps(s, js2, n, t),
    decreases t,
{
    if t > 0 {
        lemma_fisher_yates_prefix(s, js1, js2, n, t - 1);
    }
}

/// Exchanging two elements keeps the multiset of elements.
pub proof fn lemma_swap_to_multiset<A>(s: Seq<A>, a: int, b: int)
    requires
        0 <= a < s.len(),
        0 <= b < s.len(),
    ensures
        s.update(a, s[b]).update(b, s[a]).to_multiset() == s.to_multiset(),
{
    broadcast use vstd::seq_lib::to_multiset_update;
    broadcast use vstd::multiset::group_multiset_axioms;
    let s1 = s.update(a, s[b]);
    assert(s1[b] == s[b]);
    assert(s1.update(b, s[a]).to_multiset() =~= s.to_multiset());
}

// ===========================================================================
// Reservoir sampling
// ===========================================================================

/// Streaming reservoir sampler: keeps a uniformly random sample of size `cap` from a stream
/// of unknown length, in a caller-owned buffer of length `cap`.
pub struct ReservoirSampler<'a, T> {
    buf: &'a mut [T],
    seen: u64,
}

impl<'a, T> ReservoirSampler<'a, T> {
    /// The buffer's current contents.
    pub closed spec fn contents(&self) -> Seq<T> {
        self.buf@
    }

    /// How many items have been offered (wrapping at `2^64`).
    pub closed spec fn seen_spec(&self) -> u64 {
        self.seen
    }

    /// A reservoir backed by `buf` (its length is the capacity), with nothing offered yet.
    pub fn new(buf: &'a mut [T]) -> (r: Self)
        ensures
            r.contents() == old(buf)@,
            r.seen_spec() == 0,
    {
        ReservoirSampler { buf, seen: 0 }
    }

    /// The capacity: the buffer's length.
    pub fn capacity(&self) -> (r: usize)
        ensures
            r == self.contents().len(),
    {
        self.buf.len()
    }

    /// How many items have been offered so far.
    pub fn seen(&self) -> (r: u64)
        ensures
            r == self.seen_spec(),
    {
        self.seen
    }

    /// The live slots: the first `min(seen, cap)` elements of the buffer.
    pub fn sample(&self) -> (r: &[T])
        ensures
            r@ == self.contents().take(self.live_len() as int),
    {
        let live = self.seen as usize;
        let n = if live < self.buf.len() {
            live
        } else {
            self.buf.len()
        };
        let r = vstd::slice::slice_subrange(self.buf, 0, n);
        assert(r@ =~= self.contents().take(self.live_len() as int));
        r
    }

    /// The number of live slots, `min(seen as usize, cap)`.
    pub open spec fn live_len(&self) -> nat {
        let live = self.seen_spec() as usize;
        if live < self.contents().len() {
            live as nat
        } else {
            self.contents().len()
        }
    }

    /// Number of live (filled) slots.
    pub fn len(&self) -> (r: usize)
        ensures
            r == self.live_len(),
    {
        self.sample().len()
    }

    /// `true` when nothing has been offered yet.
    pub fn is_empty(&self) -> (r: bool)
        ensures
            r == (self.seen_spec() == 0),
    {
        self.seen == 0
    }

    /// `true` when the reservoir is at capacity.
    pub fn is_full(&self) -> (r: bool)
        ensures
            r == (self.seen_spec() as usize >= self.contents().len()),
    {
        self.seen as usize >= self.buf.len()
    }

    /// Restart the stream (nothing offered) without clearing the buffer.
    pub fn reset(&mut self)
        ensures
            final(self).seen_spec() == 0,
            final(self).contents() == old(self).contents(),
    {
        self.seen = 0;
    }

    /// Offer one item from the stream. While filling, the item is stored in the next slot
    /// and `None` is returned. Once full, a uniform index `j` in `0..seen` (counting this item)
    /// is drawn: the item replaces slot `j` when `j < cap` and the displaced item is returned,
    /// else the item itself is returned.
    pub fn offer<R: Rng>(&mut self, item: T, rng: &mut R) -> (r: Option<T>)
        requires
            old(self).seen_spec() as usize >= old(self).contents().len() ==> old(self).seen_spec().wrapping_add(1) as usize != 0,
        ensures
            final(self).seen_spec() == old(self).seen_spec().wrapping_add(1),
            (old(self).seen_spec() as usize) < old(self).contents().len() ==> {
                &&& r is None
                &&& final(self).contents() == old(self).contents().update(old(self).seen_spec() as usize as int, item)
            },
            old(self).seen_spec() as usize >= old(self).contents().len() ==> {
                ||| final(self).contents() == old(self).contents() && r == Some(item)
                ||| exists|j: int| 0 <= j < old(self).contents().len() && final(self).contents() == old(self).contents().update(j, item)
                    && r == Some(old(self).contents()[j])
            },
    {
        let cap = self.buf.len();
        let idx = self.seen as usize;
        self.seen = self.seen.wrapping_add(1);
        if idx < cap {
            let _ = replace_at(self.buf, idx, item);
            return None;
        }
        let j = match uniform_index(rng, self.seen as usize) {
            Some(j) => j,
            None => {
                assert(false);
                0
            },
        };
        if j < cap {
            Some(replace_at(self.buf, j, item))
        } else {
            Some(item)
        }
    }
}

// ===========================================================================
// Adapters
// ===========================================================================

/// Adapter presenting one of this library's generators as a 64-bit/32-bit/byte source.
#[derive(Debug)]
pub struct CoreRng<R>(pub R);

impl<R: Rng> CoreRng<R> {
    /// The high 32 bits of one draw.
    pub fn next_u32(&mut self) -> (r: u32)
        ensures
            exists|b: u64| r == #[trigger] high_half(b),
    {
        let b = self.0.next_u64();
        let r = (b >> 32) as u32;
        assert(r == high_half(b));
        r
    }

    /// One draw.
    pub fn next_u64(&mut self) -> u64 {
        self.0.next_u64()
    }

    /// Fill `dst` with the little-endian bytes of successive draws: each full group of eight
    /// bytes from its own draw, a shorter final group from the first bytes of one more draw.
    pub fn fill_bytes(&mut self, dst: &mut [u8])
        ensures
            final(dst)@.len() == old(dst)@.len(),
            exists|draws: Seq<u64>| is_byte_stream(final(dst)@, draws),
    {
        let n = dst.len();
        let mut pos: usize = 0;
        let ghost mut draws: Seq<u64> = Seq::empty();
        while pos < n
            invariant
                n == dst@.len(),
                pos <= n,
                pos % 8 == 0 || pos == n,
                draws.len() * 8 >= pos,
                draws.len() * 8 < pos + 8,
                forall|k: int| 0 <= k < pos ==> #[trigger] dst@[k] == draw_byte(draws[k / 8], k % 8),
            decreases n - pos,
        {
            let bits = self.0.next_u64();
            let ghost start = pos;
            proof {
                draws = draws.push(bits);
            }
            let mut k: usize = 0;
            while k < 8 && pos < n
                invariant
                    n == dst@.len(),
                    pos <= n,
                    k <= 8,
                    pos == start + k,
                    start % 8 == 0,
                    draws.len() * 8 == start + 8,
                    draws[draws.len() - 1] == bits,
                    forall|q: int| 0 <= q < pos ==> #[trigger] dst@[q] == draw_byte(draws[q / 8], q % 8),
                decreases 8 - k,
            {
                let byte = (bits >> (8 * k as u64)) & 0xff;
                assert(byte < 256) by (bit_vector)
                    requires
                        byte == (bits >> (8 * k as u64)) & 0xff,
                ;
                let ghost before = dst@;
                dst[pos] = byte as u8;
                proof {
                    assert((pos as int) / 8 == draws.len() - 1);
                    assert((pos as int) % 8 == k);
                    assert forall|q: int| 0 <= q < pos + 1 implies #[trigger] dst@[q] == draw_byte(draws[q / 8], q % 8) by {
                        if q < pos {
                            assert(dst@[q] == before[q]);
                        }
                    }
                }
                pos += 1;
                k += 1;
            }
        }
        assert(is_byte_stream(dst@, draws));
    }
}

/// Byte `k` (from the least significant) of the draw `d`.
pub open spec fn draw_byte(d: u64, k: int) -> u8 {
    ((d >> ((8 * k) as u64)) & 0xff) as u8
}

/// `bytes` is the little-endian byte stream of the draws `draws`, cut to its length: byte
/// `k` is byte `k % 8` of draw `k / 8`.
pub open spec fn is_byte_stream(bytes: Seq<u8>, draws: Seq<u64>) -> bool {
    &&& draws.len() * 8 >= bytes.len()
    &&& forall|k: int| 0 <= k < bytes.len() ==> #[trigger] bytes[k] == draw_byte(draws[k / 8], k % 8)
}

/// A distribution of an outside crate, wrapped so that this library's generators can drive
/// it through [`CoreRng`].
#[derive(Clone, Copy, Debug, Default, PartialEq, Eq, Hash)]
pub struct Dist<D>(pub D);

impl<D> Dist<D> {
    /// Wrap a distribution.
    pub fn new(dist: D) -> (r: Self)
        ensures
            r.0 == dist,
    {
        Dist(dist)
    }

    /// Borrow the wrapped distribution.
    pub fn inner(&self) -> (r: &D)
        ensures
            *r == self.0,
    {
        &self.0
    }

    /// Mutably borrow the wrapped distribution.
    pub fn inner_mut(&mut self) -> (r: &mut D)
        ensures
            *r == old(self).0,
            final(self).0 == *final(r),
    {
        &mut self.0
    }

    /// Consume the wrapper and return the wrapped distribution.
    pub fn into_inner(self) -> (r: D)
        ensures
            r == self.0,
    {
        self.0
    }
}

/// A float-valued distribution of an outside crate used as a source of counts (its values
/// truncated to `u64`, clamped to `0 ..= u64::MAX`).
#[derive(Clone, Copy, Debug, Default, PartialEq, Eq, Hash)]
pub struct AsU64<D>(pub D);

impl<D> AsU64<D> {
    /// Wrap a float-valued distribution as a source of counts.
    pub fn new(dist: D) -> (r: Self)
        ensures
            r.0 == dist,
    {
        AsU64(dist)
    }

    /// Consume the adapter and return the wrapped distribution.
    pub fn into_inner(self) -> (r: D)
        ensures
            r == self.0,
    {
        self.0
    }
}

// ===========================================================================
// Metropolis bookkeeping
// ===========================================================================

/// A random-walk Metropolis sampler over a scalar state: an unnormalised log-target, a
/// symmetric proposal over increments, and the counts of proposals and acceptances.
#[derive(Clone, Debug)]
pub struct Metropolis<F, P> {
    log_target: F,
    proposal: P,
    accepted: u64,
    proposals: u64,
}

impl<F, P> Metropolis<F, P> {
    /// The number of accepted proposals so far.
    pub closed spec fn accepted_spec(&self) -> u64 {
        self.accepted
    }

    /// The number of proposals so far.
    pub closed spec fn proposals_spec(&self) -> u64 {
        self.proposals
    }

    /// The log-target.
    pub closed spec fn log_target_spec(&self) -> F {
        self.log_target
    }

    /// The proposal distribution.
    pub closed spec fn proposal_spec(&self) -> P {
        self.proposal
    }

    /// A sampler from a log-target and a symmetric proposal, with no proposal made yet.
    pub fn new(log_target: F, proposal: P) -> (r: Self)
        ensures
            r.log_target_spec() == log_target,
            r.proposal_spec() == proposal,
            r.accepted_spec() == 0,
            r.proposals_spec() == 0,
    {
        Metropolis { log_target, proposal, accepted: 0, proposals: 0 }
    }

    /// The number of accepted proposals so far.
    pub fn accepted(&self) -> (r: u64)
        ensures
            r == self.accepted_spec(),
    {
        self.accepted
    }

    /// The number of proposals so far.
    pub fn proposals(&self) -> (r: u64)
        ensures
            r == self.proposals_spec(),
    {
        self.proposals
    }

    /// Reset both counters (after burn-in, for instance).
    pub fn reset_statistics(&mut self)
        ensures
            final(self).accepted_spec() == 0,
            final(self).proposals_spec() == 0,
            final(self).log_target_spec() == old(self).log_target_spec(),
            final(self).proposal_spec() == old(self).proposal_spec(),
    {
        self.accepted = 0;
        self.proposals = 0;
    }

    /// Borrow the proposal distribution.
    pub fn proposal(&self) -> (r: &P)
        ensures
            *r == self.proposal_spec(),
    {
        &self.proposal
    }

    /// Borrow the log-target.
    pub fn log_target(&self) -> (r: &F)
        ensures
            *r == self.log_target_spec(),
    {
        &self.log_target
    }

    /// Count one proposal, and one acceptance when `accepted`.
    pub fn record_proposal(&mut self, accepted: bool)
        requires
            old(self).proposals_spec() < u64::MAX,
            old(self).accepted_spec() <= old(self).proposals_spec(),
        ensures
            final(self).accepted_spec() <= final(self).proposals_spec(),
            final(self).proposals_spec() == old(self).proposals_spec() + 1,
            final(self).accepted_spec() == old(self).accepted_spec() + if accepted { 1int } else { 0int },
            final(self).log_target_spec() == old(self).log_target_spec(),
            final(self).proposal_spec() == old(self).proposal_spec(),
    {
        self.proposals += 1;
        if accepted {
            self.accepted += 1;
        }
    }

    /// Consume the sampler and return its log-target and proposal.
    pub fn into_parts(self) -> (r: (F, P))
        ensures
            r == (self.log_target_spec(), self.proposal_spec()),
    {
        (self.log_target, self.proposal)
    }
}

} // verus!
