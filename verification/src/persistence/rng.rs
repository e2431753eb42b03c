//! A seeded random number generator whose position can be taken down and
//! restored, so that a run that draws from it can be replayed.
//!
//! The generator is the ChaCha20 key stream. Its whole state is the key, the
//! number of the stream, and the position in it, counted in 32-bit words.

use rand_chacha::rand_core::{RngCore, SeedableRng};
use rand_chacha::ChaCha20Rng;
use vstd::prelude::*;

verus! {

/// The number of 32-bit words after which a key stream repeats: 2^68.
pub const PERIOD: u128 = 295_147_905_179_352_825_856;

/// The ChaCha20 key that the number `seed` is expanded to.
pub uninterp spec fn expanded_key(seed: u64) -> Seq<u8>;

/// The 64 bits at a position of a ChaCha20 key stream.
pub uninterp spec fn key_stream(key: Seq<u8>, stream: u64, position: u128) -> u64;

/// `ChaCha20Rng::seed_from_u64` and `get_seed`: the key that a number is
/// expanded to.
#[verifier::external_body]
fn expand(seed: u64) -> (r: [u8; 32])
    ensures
        r@ == expanded_key(seed),
{
    ChaCha20Rng::seed_from_u64(seed).get_seed()
}

/// `ChaCha20Rng::next_u64` at a position of a stream, and `get_word_pos` behind
/// it: the draw, and the position two words further on. Positions count modulo
/// the period.
#[verifier::external_body]
fn draw(key: &[u8; 32], stream: u64, position: u128) -> (r: (u64, u128))
    ensures
        r.0 == key_stream(key@, stream, (position % PERIOD) as u128),
        r.1 == (position % PERIOD + 2) % PERIOD as int,
{
    let mut rng = ChaCha20Rng::from_seed(*key);
    rng.set_stream(stream);
    rng.set_word_pos(position);
    let drawn = rng.next_u64();
    (drawn, rng.get_word_pos())
}

/// The state of a generator, as it is stored.
#[derive(Debug, Clone, Copy, PartialEq, Eq)]
pub struct RngState {
    /// The key.
    pub seed: [u8; 32],
    /// The number of the stream: generators that were split off have their own.
    pub stream: u64,
    /// The position in the stream, in 32-bit words.
    pub word_pos: u128,
}

/// A deterministic generator.
pub struct SeededRng {
    seed: [u8; 32],
    stream: u64,
    word_pos: u128,
    split_counter: u64,
}

/// The model of [`SeededRng`].
pub struct RngView {
    pub seed: Seq<u8>,
    pub stream: u64,
    pub word_pos: u128,
    /// How many generators were split off so far.
    pub splits: nat,
}

impl View for SeededRng {
    type V = RngView;

    closed spec fn view(&self) -> RngView {
        RngView {
            seed: self.seed@,
            stream: self.stream,
            word_pos: self.word_pos,
            splits: self.split_counter as nat,
        }
    }
}

/// The number of the stream of the `n`-th generator that is split off a
/// generator on `stream`.
pub open spec fn child_stream(stream: u64, n: u64) -> u64 {
    stream.wrapping_mul(0x9E37_79B9_7F4A_7C15).wrapping_add(n)
}

impl RngView {
    /// A generator that was never drawn from, on stream 0.
    pub open spec fn seeded(seed: u64) -> RngView {
        RngView { seed: expanded_key(seed), stream: 0, word_pos: 0, splits: 0 }
    }

    /// The generator at a stored state.
    pub open spec fn at(state: RngState) -> RngView {
        RngView {
            seed: state.seed@,
            stream: state.stream,
            word_pos: (state.word_pos % PERIOD) as u128,
            splits: 0,
        }
    }

    /// Whether `state` tells this generator's place in its stream.
    pub open spec fn is_at(self, state: RngState) -> bool {
        self.seed == state.seed@ && self.stream == state.stream && self.word_pos == state.word_pos
    }

    /// The next draw.
    pub open spec fn next(self) -> u64 {
        key_stream(self.seed, self.stream, self.word_pos)
    }

    /// The generator after a draw.
    pub open spec fn advanced(self) -> RngView {
        RngView { word_pos: ((self.word_pos + 2) % PERIOD as int) as u128, ..self }
    }

    /// The next `n` draws.
    pub open spec fn draws(self, n: nat) -> Seq<u64>
        decreases n,
    {
        if n == 0 {
            Seq::empty()
        } else {
            seq![self.next()] + self.advanced().draws((n - 1) as nat)
        }
    }

    /// The generator after splitting one off.
    pub open spec fn after_split(self) -> RngView {
        RngView { splits: self.splits + 1, ..self }
    }

    /// The generator that is split off next.
    pub open spec fn child(self) -> RngView {
        RngView {
            seed: self.seed,
            stream: child_stream(self.stream, (self.splits + 1) as u64),
            word_pos: 0,
            splits: 0,
        }
    }
}

impl SeededRng {
    #[verifier::type_invariant]
    spec fn in_period(self) -> bool {
        self.word_pos < PERIOD
    }

    /// A generator from a 64-bit seed.
    pub fn from_seed(seed: u64) -> (r: SeededRng)
        ensures
            r@ == RngView::seeded(seed),
    {
        SeededRng { seed: expand(seed), stream: 0, word_pos: 0, split_counter: 0 }
    }

    /// The next draw.
    pub fn next_u64(&mut self) -> (r: u64)
        ensures
            r == old(self)@.next(),
            final(self)@ == old(self)@.advanced(),
    {
        proof {
            use_type_invariant(&*self);
            vstd::arithmetic::div_mod::lemma_small_mod(self.word_pos as nat, PERIOD as nat);
            vstd::arithmetic::div_mod::lemma_mod_bound(self.word_pos + 2, PERIOD as int);
        }
        let (drawn, word_pos) = draw(&self.seed, self.stream, self.word_pos);
        self.word_pos = word_pos;
        drawn
    }

    /// The present state, for [`SeededRng::restore`].
    pub fn snapshot(&self) -> (r: RngState)
        ensures
            self@.is_at(r),
            r.word_pos < PERIOD,
    {
        proof {
            use_type_invariant(self);
        }
        RngState { seed: self.seed, stream: self.stream, word_pos: self.word_pos }
    }

    /// A generator that goes on where `state` was taken.
    pub fn restore(state: RngState) -> (r: SeededRng)
        ensures
            r@ == RngView::at(state),
    {
        SeededRng {
            seed: state.seed,
            stream: state.stream,
            word_pos: state.word_pos % PERIOD,
            split_counter: 0,
        }
    }

    /// How many generators were split off so far.
    pub fn split_count(&self) -> (r: u64)
        ensures
            r == self@.splits,
    {
        self.split_counter
    }

    /// A generator on a stream of its own, with the same key. It takes no draws
    /// away from this one.
    pub fn split(&mut self) -> (r: SeededRng)
        requires
            old(self)@.splits < u64::MAX,
        ensures
            r@ == old(self)@.child(),
            final(self)@ == old(self)@.after_split(),
    {
        proof {
            use_type_invariant(&*self);
        }
        self.split_counter = self.split_counter + 1;
        let stream: u64 = self.stream.wrapping_mul(0x9E37_79B9_7F4A_7C15).wrapping_add(
            self.split_counter,
        );
        SeededRng { seed: self.seed, stream, word_pos: 0, split_counter: 0 }
    }
}

// ---------------------------------------------------------------------------
// Laws
// ---------------------------------------------------------------------------
/// Draws depend on the place in the stream alone.
pub proof fn lemma_same_place_same_draws(a: RngView, b: RngView, n: nat)
    requires
        a.seed == b.seed,
        a.stream == b.stream,
        a.word_pos == b.word_pos,
    ensures
        a.draws(n) == b.draws(n),
    decreases n,
{
    if n > 0 {
        lemma_same_place_same_draws(a.advanced(), b.advanced(), (n - 1) as nat);
    }
}

/// A generator that is restored from a snapshot draws what the snapshot's
/// generator draws from there on.
pub proof fn restored_draws_are_identical(rng: RngView, state: RngState, n: nat)
    requires
        rng.is_at(state),
        state.word_pos < PERIOD,
    ensures
        RngView::at(state).draws(n) == rng.draws(n),
{
    vstd::arithmetic::div_mod::lemma_small_mod(state.word_pos as nat, PERIOD as nat);
    lemma_same_place_same_draws(RngView::at(state), rng, n);
}

/// Splitting one off leaves all draws of a generator as they were.
pub proof fn splitting_takes_no_draws(rng: RngView, n: nat)
    ensures
        rng.after_split().draws(n) == rng.draws(n),
{
    lemma_same_place_same_draws(rng.after_split(), rng, n);
}

/// Two generators that are split off the same one are on different streams.
pub proof fn siblings_are_apart(stream: u64, a: u64, b: u64)
    requires
        a != b,
    ensures
        child_stream(stream, a) != child_stream(stream, b),
{
}

/// A generator that is split off is on another stream than the one it is split
/// off, but for the single number that leads back to it. On stream 0 that is
/// number 0, which no generator has.
pub proof fn children_leave_the_stream(stream: u64, n: u64)
    requires
        n != stream.wrapping_sub(stream.wrapping_mul(0x9E37_79B9_7F4A_7C15)),
    ensures
        child_stream(stream, n) != stream,
{
}

/// The `i`-th draw from a place is the 64 bits that stand `i` draws, of two words
/// each, behind it in the key stream, counted modulo the period.
pub proof fn draws_walk_the_stream(rng: RngView, n: nat, i: int)
    requires
        rng.word_pos < PERIOD,
        0 <= i < n,
    ensures
        rng.draws(n).len() == n,
        rng.draws(n)[i] == key_stream(
            rng.seed,
            rng.stream,
            ((rng.word_pos + 2 * i) % PERIOD as int) as u128,
        ),
    decreases n,
{
    let next = rng.advanced();
    let period = PERIOD as int;
    lemma_draws_len(rng, n);
    vstd::arithmetic::div_mod::lemma_mod_bound(rng.word_pos + 2, period);
    if i == 0 {
        vstd::arithmetic::div_mod::lemma_small_mod(rng.word_pos as nat, PERIOD as nat);
        assert(rng.draws(n)[0] == rng.next());
    } else {
        draws_walk_the_stream(next, (n - 1) as nat, i - 1);
        lemma_draws_len(next, (n - 1) as nat);
        assert(rng.draws(n)[i] == next.draws((n - 1) as nat)[i - 1]);
        vstd::arithmetic::div_mod::lemma_add_mod_noop(rng.word_pos + 2, 2 * (i - 1), period);
        vstd::arithmetic::div_mod::lemma_add_mod_noop(
            (rng.word_pos + 2) % period,
            2 * (i - 1),
            period,
        );
        vstd::arithmetic::div_mod::lemma_mod_twice(rng.word_pos + 2, period);
    }
}

proof fn lemma_draws_len(rng: RngView, n: nat)
    ensures
        rng.draws(n).len() == n,
    decreases n,
{
    if n > 0 {
        lemma_draws_len(rng.advanced(), (n - 1) as nat);
    }
}

/// A generator from a seed starts at the beginning of stream 0 of the expanded
/// key. A generator that is split off has the key of its parent and starts at the
/// beginning of the stream whose number is the parent's times the golden ratio
/// constant plus the count of the split, modulo 2^64. A restored one stands where
/// the state says.
pub proof fn generators_start_where_they_should(rng: RngView, seed: u64, state: RngState)
    requires
        rng.splits < u64::MAX,
    ensures
        ({
            let new = RngView::seeded(seed);
            &&& new.seed == expanded_key(seed)
            &&& new.stream == 0
            &&& new.word_pos == 0
            &&& new.splits == 0
        }),
        ({
            let child = rng.child();
            &&& child.seed == rng.seed
            &&& child.stream == (rng.stream * 0x9E37_79B9_7F4A_7C15 + rng.splits + 1)
                % 0x1_0000_0000_0000_0000
            &&& child.word_pos == 0
            &&& child.splits == 0
        }),
        ({
            let again = RngView::at(state);
            &&& again.seed == state.seed@
            &&& again.stream == state.stream
            &&& again.splits == 0
            &&& state.word_pos < PERIOD ==> again.word_pos == state.word_pos
        }),
        rng.after_split().splits == rng.splits + 1,
        rng.after_split().word_pos == rng.word_pos,
        PERIOD == 0x10_0000_0000_0000_0000,
{
    let m = 0x1_0000_0000_0000_0000int;
    let p = rng.stream * 0x9E37_79B9_7F4A_7C15;
    let n = rng.splits + 1;
    if state.word_pos < PERIOD {
        vstd::arithmetic::div_mod::lemma_small_mod(state.word_pos as nat, PERIOD as nat);
    }
    vstd::arithmetic::div_mod::lemma_add_mod_noop(p, n as int, m);
    vstd::arithmetic::div_mod::lemma_add_mod_noop(p % m, n as int, m);
    vstd::arithmetic::div_mod::lemma_mod_twice(p, m);
}

} // verus!
