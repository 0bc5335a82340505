use rand_chacha::rand_core::RngCore;
use rand_chacha::rand_core::SeedableRng;
use rand_chacha::ChaCha8Rng;
use vstd::prelude::*;

verus! {

/// `rand_chacha::ChaCha8Rng`, a generator whose state is read only through
/// the names below.
#[verifier::external_type_specification]
#[verifier::external_body]
pub struct ExChaCha8Rng(rand_chacha::ChaCha8Rng);

/// The 32-bit word at position `index` of the ChaCha8 stream that
/// `ChaCha8Rng::seed_from_u64(seed)` starts.
pub uninterp spec fn chacha8_word(seed: u64, index: nat) -> u32;

/// The seed a generator was started from.
pub uninterp spec fn stream_seed(rng: ChaCha8Rng) -> u64;

/// The 32-bit words a generator has handed out since it was seeded, in
/// order.
pub uninterp spec fn words_drawn(rng: ChaCha8Rng) -> Seq<u32>;

/// `ChaCha8Rng::seed_from_u64`: a generator at the start of the stream of
/// `seed`, which has handed out nothing yet.
#[verifier::external_body]
fn seeded_stream(seed: u64) -> (rng: ChaCha8Rng)
    ensures
        stream_seed(rng) == seed,
        words_drawn(rng) == Seq::<u32>::empty(),
{
    ChaCha8Rng::seed_from_u64(seed)
}

/// `RngCore::next_u32` on a `ChaCha8Rng`: hands out the next word of the
/// stream, which is the word at the position that the number of words
/// handed out so far gives.
#[verifier::external_body]
fn next_word(rng: &mut ChaCha8Rng) -> (w: u32)
    ensures
        w == chacha8_word(stream_seed(*old(rng)), words_drawn(*old(rng)).len()),
        stream_seed(*final(rng)) == stream_seed(*old(rng)),
        words_drawn(*final(rng)) == words_drawn(*old(rng)).push(w),
    no_unwind
{
    rng.next_u32()
}

/// `RngCore::next_u64` on a `ChaCha8Rng`: hands out the next two words of the
/// stream as one value, the first as the low half.
#[verifier::external_body]
fn next_pair(rng: &mut ChaCha8Rng) -> (w: u64)
    ensures
        w == chacha8_word(stream_seed(*old(rng)), words_drawn(*old(rng)).len()) + 0x1_0000_0000
            * chacha8_word(stream_seed(*old(rng)), words_drawn(*old(rng)).len() + 1),
        stream_seed(*final(rng)) == stream_seed(*old(rng)),
        words_drawn(*final(rng)) == words_drawn(*old(rng)).push(
            chacha8_word(stream_seed(*old(rng)), words_drawn(*old(rng)).len()),
        ).push(chacha8_word(stream_seed(*old(rng)), words_drawn(*old(rng)).len() + 1)),
    no_unwind
{
    rng.next_u64()
}

/// `Clone::clone` on a `ChaCha8Rng`: a generator of the same stream that has
/// handed out the same words.
#[verifier::external_body]
fn same_stream(rng: &ChaCha8Rng) -> (copy: ChaCha8Rng)
    ensures
        stream_seed(copy) == stream_seed(*rng),
        words_drawn(copy) == words_drawn(*rng),
{
    rng.clone()
}

/// `rand::random::<u64>`: a value from the thread-local generator; nothing is
/// known of it.
#[verifier::external_body]
fn entropy_seed() -> u64 {
    rand::random()
}

/// Where a generator stands: the stream it reads and how far it has read.
pub struct Draws {
    pub seed: u64,
    pub pos: nat,
}

impl Draws {
    /// The stream of `seed`, unread.
    pub open spec fn start(seed: u64) -> Draws {
        Draws { seed, pos: 0 }
    }

    /// The word `k` places ahead.
    pub open spec fn word(self, k: nat) -> u32 {
        chacha8_word(self.seed, self.pos + k)
    }

    /// The same stream, `k` words further on.
    pub open spec fn skip(self, k: nat) -> Draws {
        Draws { seed: self.seed, pos: self.pos + k }
    }

    /// The 64-bit value made of the next two words, low half first.
    pub open spec fn wide(self) -> u64 {
        (self.word(0) + 0x1_0000_0000 * self.word(1)) as u64
    }

    /// The value a draw below `max` gives: the next word modulo `max`, or 0
    /// when `max` is 0.
    pub open spec fn range(self, max: u32) -> u32 {
        if max == 0 {
            0
        } else {
            self.word(0) % max
        }
    }

    /// The stream after a draw below `max`: no word is read when `max` is 0.
    pub open spec fn after_range(self, max: u32) -> Draws {
        if max == 0 {
            self
        } else {
            self.skip(1)
        }
    }

    /// The value a draw in `[min, max)` gives; `min` itself when the interval is empty.
    pub open spec fn range_i32(self, min: i32, max: i32) -> i32 {
        if max <= min {
            min
        } else {
            (min + self.word(0) % ((max - min) as u32)) as i32
        }
    }

    /// The stream after a draw in `[min, max)`.
    pub open spec fn after_range_i32(self, min: i32, max: i32) -> Draws {
        if max <= min {
            self
        } else {
            self.skip(1)
        }
    }

    /// The outcome of a coin that lands `true` with `percent` in a hundred:
    /// the next word, as a fraction of `u32::MAX`, lies below `percent / 100`.
    pub open spec fn coin(self, percent: u32) -> bool {
        self.word(0) * 100 < percent * 0xffff_ffff
    }

    /// The number of halvings that take `interval` to 0.
    pub open spec fn halvings(interval: u32) -> nat
        decreases interval,
    {
        if interval == 0 {
            0
        } else {
            1 + Self::halvings(interval / 2)
        }
    }

    /// The sum of one binary draw per halving of `interval`.
    pub open spec fn limited(self, interval: u32) -> nat
        decreases interval,
    {
        if interval == 0 {
            0
        } else {
            (self.word(0) % 2) as nat + self.skip(1).limited(interval / 2)
        }
    }
}

/// A seeded pseudo-random stream: the same seed gives the same draws, in the
/// same order, on every run.
pub struct DeterministicRng {
    rng: ChaCha8Rng,
    seed: u64,
}

impl View for DeterministicRng {
    type V = Draws;

    closed spec fn view(&self) -> Draws {
        Draws { seed: self.seed, pos: words_drawn(self.rng).len() }
    }
}

impl DeterministicRng {
    #[verifier::type_invariant]
    closed spec fn inv(self) -> bool {
        stream_seed(self.rng) == self.seed
    }

    /// A generator at the start of the stream of `seed`.
    pub fn new(seed: u64) -> (r: Self)
        ensures
            r@ == Draws::start(seed),
    {
        Self { rng: seeded_stream(seed), seed }
    }

    /// A generator seeded from the thread-local source of randomness.
    pub fn from_entropy() -> (r: Self)
        ensures
            r@.pos == 0,
    {
        let seed = entropy_seed();
        Self::new(seed)
    }

    /// The seed this generator was started from.
    pub fn seed(&self) -> (s: u64)
        ensures
            s == self@.seed,
    {
        self.seed
    }

    /// The next word of the stream.
    pub fn gen_u32(&mut self) -> (r: u32)
        ensures
            r == old(self)@.word(0),
            final(self)@ == old(self)@.skip(1),
    {
        proof {
            use_type_invariant(&*self);
        }
        next_word(&mut self.rng)
    }

    /// The next two words of the stream as one 64-bit value.
    pub fn gen_u64(&mut self) -> (r: u64)
        ensures
            r == old(self)@.wide(),
            final(self)@ == old(self)@.skip(2),
    {
        proof {
            use_type_invariant(&*self);
        }
        next_pair(&mut self.rng)
    }

    /// A value in `[0, max)` by modulo; 0, without a draw, when `max` is 0.
    pub fn gen_range(&mut self, max: u32) -> (r: u32)
        ensures
            r == old(self)@.range(max),
            final(self)@ == old(self)@.after_range(max),
            max > 0 ==> r < max,
    {
        if max == 0 {
            return 0;
        }
        self.gen_u32() % max
    }

    /// A value in `[min, max)`; `min`, without a draw, when the interval is empty.
    pub fn gen_range_i32(&mut self, min: i32, max: i32) -> (r: i32)
        ensures
            r == old(self)@.range_i32(min, max),
            final(self)@ == old(self)@.after_range_i32(min, max),
            min < max ==> min <= r < max,
    {
        if max <= min {
            return min;
        }
        let span: u32 = (max as i64 - min as i64) as u32;
        let offset: u32 = self.gen_range(span);
        (min as i64 + offset as i64) as i32
    }

    /// `true` with a probability of `percent` in a hundred.
    pub fn gen_bool(&mut self, percent: u32) -> (r: bool)
        ensures
            r == old(self)@.coin(percent),
            final(self)@ == old(self)@.skip(1),
    {
        let w: u32 = self.gen_u32();
        (w as u64) * 100 < (percent as u64) * 0xffff_ffff
    }

    /// A draw skewed towards low values: one binary draw for each halving
    /// that takes `interval` to 0, summed.
    pub fn limited_random(&mut self, interval: u32) -> (r: u32)
        ensures
            r == old(self)@.limited(interval),
            final(self)@ == old(self)@.skip(Draws::halvings(interval)),
            r <= 32,
    {
        let mut result: u32 = 0;
        let mut i: u32 = interval;
        let mut steps: u32 = 0;
        proof {
            vstd::arithmetic::power2::lemma2_to64();
        }
        while i > 0
            invariant
                steps <= 32,
                result <= steps,
                (i as nat) < vstd::arithmetic::power2::pow2((32 - steps) as nat),
                self@ == old(self)@.skip(steps as nat),
                result + self@.limited(i) == old(self)@.limited(interval),
                steps + Draws::halvings(i) == Draws::halvings(interval),
            decreases i,
        {
            proof {
                vstd::arithmetic::power2::lemma2_to64();
                assert(steps < 32);
                vstd::arithmetic::power2::lemma_pow2_unfold((32 - steps) as nat);
            }
            let bit: u32 = self.gen_range(2);
            result = result + bit;
            i = i / 2;
            steps = steps + 1;
        }
        result
    }
}

impl Clone for DeterministicRng {
    fn clone(&self) -> (r: Self)
        ensures
            r@ == self@,
    {
        proof {
            use_type_invariant(self);
        }
        Self { rng: same_stream(&self.rng), seed: self.seed }
    }
}

impl Default for DeterministicRng {
    fn default() -> (r: Self)
        ensures
            r@ == Draws::start(0),
    {
        Self::new(0)
    }
}

} // verus!
