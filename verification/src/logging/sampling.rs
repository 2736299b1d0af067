//! Event sampling: probabilistic and per-level filtering.
//!
//! Sampling gates events before they reach any sink. A linear congruential generator
//! provides pseudo-randomness, seeded per thread so that threads do not correlate
//! their decisions. Events more verbose than the minimum level are always dropped;
//! the rest pass with the probability of the rate.

use vstd::arithmetic::{div_mod, power2};
use vstd::prelude::*;

use crate::logging::double::{self, clamp, is_above_draw, is_at_least_one, is_at_most_zero};
use crate::logging::level::{Level, LevelFilter};

verus! {

/// A fraction between zero and one, held as the bit pattern of a double.
#[derive(Debug, Clone, Copy, PartialEq, Eq, Structural)]
pub struct Rate {
    /// The bit pattern.
    pub bits: u64,
}

impl Rate {
    /// The rate with the given bit pattern, as it is.
    pub fn from_bits(bits: u64) -> (rate: Rate)
        ensures
            rate.bits == bits,
    {
        Rate { bits }
    }
}

/// Configuration for event sampling.
#[derive(Debug, Clone, Copy, PartialEq, Eq, Structural)]
#[non_exhaustive]
pub struct SampleConfig {
    /// Probability that an event at or above `min_level` passes: 1.0 logs
    /// everything, 0.0 logs nothing, 0.01 logs one in a hundred.
    pub rate: Rate,
    /// The least severe level allowed through. Events *more verbose* than this are
    /// always dropped, regardless of `rate`.
    pub min_level: LevelFilter,
}

impl Default for SampleConfig {
    /// Log everything.
    fn default() -> (config: Self)
        ensures
            config.rate.bits == double::ONE,
            config.min_level == LevelFilter::Trace,
    {
        SampleConfig { rate: Rate { bits: double::ONE }, min_level: LevelFilter::Trace }
    }
}

impl SampleConfig {
    /// Sample at `rate`, admitting every level. The rate is brought into the range
    /// from zero to one.
    pub fn new(rate: Rate) -> (config: SampleConfig)
        ensures
            config.rate.bits == double::clamped(rate.bits),
            config.min_level == LevelFilter::Trace,
    {
        SampleConfig::default().with_rate(rate)
    }

    /// Probability that an eligible event passes, brought into the range from zero to
    /// one.
    pub fn with_rate(self, rate: Rate) -> (config: SampleConfig)
        ensures
            config.rate.bits == double::clamped(rate.bits),
            config.min_level == self.min_level,
    {
        SampleConfig { rate: Rate { bits: clamp(rate.bits) }, min_level: self.min_level }
    }

    /// The least severe level eligible for sampling; anything more verbose is always
    /// dropped.
    pub fn with_min_level(self, min_level: LevelFilter) -> (config: SampleConfig)
        ensures
            config.min_level == min_level,
            config.rate == self.rate,
    {
        SampleConfig { rate: self.rate, min_level }
    }
}

/// The generator's multiplier: congruent to 1 modulo 4, which with an odd increment
/// gives the generator its full period.
pub const MULTIPLIER: u64 = 6_364_136_223_846_793_005;

/// The generator's increment, odd as full period requires.
pub const INCREMENT: u64 = 1_442_695_040_888_963_407;

/// The state after `state`.
pub open spec fn next_state(state: u64) -> u64 {
    ((state * MULTIPLIER + INCREMENT) % 0x1_0000_0000_0000_0000) as u64
}

/// The top 32 bits of a state: the low bits of such a generator have short cycles.
pub open spec fn draw_of(state: u64) -> u32 {
    (state / 0x1_0000_0000) as u32
}

/// Advance the generator and draw from it: `draw / 2^32` is a number from zero up to,
/// and not including, one.
pub fn thread_random(state: &mut u64) -> (draw: u32)
    ensures
        *final(state) == next_state(*old(state)),
        draw == draw_of(*final(state)),
{
    let product: u64 = state.wrapping_mul(MULTIPLIER);
    *state = product.wrapping_add(INCREMENT);
    proof {
        let s = *old(state) as int;
        let m = 0x1_0000_0000_0000_0000int;
        assert(product == (s * MULTIPLIER) % m);
        div_mod::lemma_add_mod_noop(s * MULTIPLIER, INCREMENT as int, m);
        div_mod::lemma_small_mod(INCREMENT as nat, m as nat);
        assert(*state == (product + INCREMENT) % m);
    }
    (*state / 0x1_0000_0000) as u32
}

/// Whether an event of `level` is kept, and the generator's state afterwards. Only a
/// rate strictly between zero and one costs a draw.
pub open spec fn sampled(config: SampleConfig, level: Level, state: u64) -> (bool, u64) {
    let bits = config.rate.bits;
    if level.rank() > config.min_level.rank() {
        (false, state)
    } else if double::at_least_one(bits) {
        (true, state)
    } else if double::at_most_zero(bits) {
        (false, state)
    } else {
        (
            !double::is_nan(bits) && double::exceeds_draw(bits, draw_of(next_state(state))),
            next_state(state),
        )
    }
}

/// Event sampler.
#[derive(Debug, Clone, Copy)]
pub struct Sampler {
    config: SampleConfig,
}

impl Sampler {
    /// The configuration.
    pub closed spec fn settings(self) -> SampleConfig {
        self.config
    }

    /// Create a new sampler with the given configuration.
    pub fn new(config: SampleConfig) -> (sampler: Sampler)
        ensures
            sampler.settings() == config,
    {
        Sampler { config }
    }

    /// The configuration.
    pub fn config(&self) -> (config: SampleConfig)
        ensures
            config == self.settings(),
    {
        self.config
    }

    /// Whether an event of `level` should be logged. `state` is the state of the
    /// calling thread's generator.
    pub fn should_sample(&self, level: Level, state: &mut u64) -> (keep: bool)
        ensures
            (keep, *final(state)) == sampled(self.settings(), level, *old(state)),
    {
        if level.exceeds(self.config.min_level) {
            return false;
        }
        let bits: u64 = self.config.rate.bits;
        if is_at_least_one(bits) {
            return true;
        }
        if is_at_most_zero(bits) {
            return false;
        }
        let draw: u32 = thread_random(state);
        proof {
            double::lemma_one();
            assert(bits < double::ONE || double::is_nan(bits)) by {
                if double::ONE < bits < double::INFINITY {
                    double::lemma_order(double::ONE, bits);
                }
            }
            assert(bits > 0) by {
                if bits == 0 {
                    assert(double::magnitude(0) == 0) by (nonlinear_arith)
                        requires
                            double::magnitude(0) == double::significand(0)
                                * vstd::arithmetic::power2::pow2(double::scale(0)),
                            double::significand(0) == 0,
                    ;
                }
            }
        }
        if bits < double::ONE {
            is_above_draw(bits, draw)
        } else {
            false
        }
    }
}

/// A higher rate keeps whatever a lower rate keeps: from the same state of the
/// generator, an event that passes at one rate passes at any rate that is not lower.
pub proof fn law_higher_rate_keeps_more(
    low: u64,
    high: u64,
    min_level: LevelFilter,
    level: Level,
    state: u64,
)
    requires
        low <= high <= double::ONE,
        sampled(SampleConfig { rate: Rate { bits: low }, min_level }, level, state).0,
    ensures
        sampled(SampleConfig { rate: Rate { bits: high }, min_level }, level, state).0,
{
    double::lemma_one();
    if low < high {
        double::lemma_order(low, high);
    }
}

/// 2^64 divided by the golden ratio: an odd constant with well-spread bits, used as
/// the stride between consecutive thread seeds.
pub const GOLDEN_GAMMA: u64 = 0x9E37_79B9_7F4A_7C15;

/// What [`splitmix64`] returns.
pub open spec fn mixed(seed: u64) -> u64 {
    let first = ((seed ^ (seed >> 30)) as u64).wrapping_mul(0xBF58_476D_1CE4_E5B9u64);
    let second = ((first ^ (first >> 27)) as u64).wrapping_mul(0x94D0_49BB_1331_11EBu64);
    second ^ (second >> 31)
}

/// The `splitmix64` finaliser: spreads inputs that differ only in a few bits, so
/// consecutive thread ordinals become far-apart seeds.
pub fn splitmix64(seed: u64) -> (z: u64)
    ensures
        z == mixed(seed),
{
    let mut z: u64 = seed;
    z = (z ^ (z >> 30)).wrapping_mul(0xBF58_476D_1CE4_E5B9);
    z = (z ^ (z >> 27)).wrapping_mul(0x94D0_49BB_1331_11EB);
    z ^ (z >> 31)
}

/// What [`seed_for_new_thread`] returns.
pub open spec fn thread_seed(nonce: u64, ordinal: u64) -> u64 {
    mixed(nonce ^ ordinal.wrapping_mul(GOLDEN_GAMMA))
}

/// The starting state of the generator of a thread.
///
/// Threads must not share a seed: every thread would draw the same sequence, and
/// sampling decisions would correlate perfectly. The seed therefore mixes a
/// per-process nonce with the thread's ordinal.
pub fn seed_for_new_thread(nonce: u64, ordinal: u64) -> (seed: u64)
    ensures
        seed == thread_seed(nonce, ordinal),
{
    splitmix64(nonce ^ ordinal.wrapping_mul(GOLDEN_GAMMA))
}

/// A nonce for the lifetime of the process, from the wall clock in nanoseconds since
/// the epoch, where it can be read, and the address of something on the stack.
pub fn process_nonce(wall_clock: Option<u64>, stack_marker: u64) -> (nonce: u64)
    ensures
        nonce == mixed((match wall_clock {
            Some(t) => t,
            None => GOLDEN_GAMMA,
        }) ^ stack_marker),
{
    let clock: u64 = match wall_clock {
        Some(t) => t,
        None => GOLDEN_GAMMA,
    };
    splitmix64(clock ^ stack_marker)
}

/// Multiplication by a factor that has an inverse modulo 2^64 loses nothing.
proof fn lemma_mul_injective(a: u64, b: u64, factor: u64, inverse: u64)
    requires
        (factor * inverse) % 0x1_0000_0000_0000_0000 == 1,
        a.wrapping_mul(factor) == b.wrapping_mul(factor),
    ensures
        a == b,
{
    lemma_mul_inverse(a, factor, inverse);
    lemma_mul_inverse(b, factor, inverse);
}

proof fn lemma_mul_inverse(a: u64, factor: u64, inverse: u64)
    requires
        (factor * inverse) % 0x1_0000_0000_0000_0000 == 1,
    ensures
        (a.wrapping_mul(factor) * inverse) % 0x1_0000_0000_0000_0000 == a,
{
    let m = 0x1_0000_0000_0000_0000int;
    let x = a as int;
    let f = factor as int;
    let i = inverse as int;
    assert(a.wrapping_mul(factor) == (x * f) % m);
    div_mod::lemma_mul_mod_noop_left(x * f, i, m);
    assert((x * f) * i == x * (f * i)) by (nonlinear_arith);
    div_mod::lemma_mul_mod_noop_right(x, f * i, m);
    assert(x * 1 == x);
    div_mod::lemma_small_mod(a as nat, m as nat);
}

/// The finaliser loses nothing: different inputs give different outputs.
pub proof fn law_splitmix64_injective(a: u64, b: u64)
    requires
        mixed(a) == mixed(b),
    ensures
        a == b,
{
    let a1: u64 = ((a ^ (a >> 30)) as u64).wrapping_mul(0xBF58_476D_1CE4_E5B9u64);
    let b1: u64 = ((b ^ (b >> 30)) as u64).wrapping_mul(0xBF58_476D_1CE4_E5B9u64);
    let a2: u64 = ((a1 ^ (a1 >> 27)) as u64).wrapping_mul(0x94D0_49BB_1331_11EBu64);
    let b2: u64 = ((b1 ^ (b1 >> 27)) as u64).wrapping_mul(0x94D0_49BB_1331_11EBu64);
    assert(a2 == b2) by (bit_vector)
        requires
            a2 ^ (a2 >> 31) == b2 ^ (b2 >> 31),
    ;
    lemma_mul_injective(
        a1 ^ (a1 >> 27),
        b1 ^ (b1 >> 27),
        0x94D0_49BB_1331_11EB,
        0x3196_42B2_D24D_8EC3,
    );
    assert(a1 == b1) by (bit_vector)
        requires
            a1 ^ (a1 >> 27) == b1 ^ (b1 >> 27),
    ;
    lemma_mul_injective(
        a ^ (a >> 30),
        b ^ (b >> 30),
        0xBF58_476D_1CE4_E5B9,
        0x96DE_1B17_3F11_9089,
    );
    assert(a == b) by (bit_vector)
        requires
            a ^ (a >> 30) == b ^ (b >> 30),
    ;
}

/// Threads do not share a seed: within one process, threads with different ordinals
/// start from different states.
pub proof fn law_thread_seeds_distinct(nonce: u64, a: u64, b: u64)
    requires
        a != b,
    ensures
        thread_seed(nonce, a) != thread_seed(nonce, b),
{
    if thread_seed(nonce, a) == thread_seed(nonce, b) {
        let x: u64 = a.wrapping_mul(GOLDEN_GAMMA);
        let y: u64 = b.wrapping_mul(GOLDEN_GAMMA);
        law_splitmix64_injective(nonce ^ x, nonce ^ y);
        assert(x == y) by (bit_vector)
            requires
                nonce ^ x == nonce ^ y,
        ;
        lemma_mul_injective(a, b, GOLDEN_GAMMA, 0xF1DE_83E1_9937_733D);
    }
}

/// The generator loses nothing: different states have different successors.
pub proof fn law_generator_injective(a: u64, b: u64)
    requires
        next_state(a) == next_state(b),
    ensures
        a == b,
{
    let m = 0x1_0000_0000_0000_0000int;
    let pa = a * MULTIPLIER;
    let pb = b * MULTIPLIER;
    div_mod::lemma_mod_equivalence(pa + INCREMENT, pb + INCREMENT, m);
    div_mod::lemma_mod_equivalence(pa, pb, m);
    assert(pa % m == pb % m);
    lemma_mul_injective(a, b, MULTIPLIER, 13_877_824_140_714_322_085);
}

/// The level decides only whether an event is eligible: two events whose levels the
/// minimum admits get the same answer from the same state, and leave the same state
/// behind.
pub proof fn law_eligible_levels_are_alike(config: SampleConfig, a: Level, b: Level, state: u64)
    requires
        a.rank() <= config.min_level.rank(),
        b.rank() <= config.min_level.rank(),
    ensures
        sampled(config, a, state) == sampled(config, b, state),
{
}

/// An event more verbose than the minimum is dropped without a draw, whatever the rate;
/// with a minimum that admits its level the same event is decided by the rate alone.
pub proof fn law_minimum_level(rate: Rate, min: LevelFilter, other: LevelFilter, level: Level, state: u64)
    ensures
        level.rank() > min.rank() ==> sampled(SampleConfig { rate, min_level: min }, level, state)
            == (false, state),
        level.rank() <= min.rank() && level.rank() <= other.rank() ==> sampled(
            SampleConfig { rate, min_level: min },
            level,
            state,
        ) == sampled(SampleConfig { rate, min_level: other }, level, state),
{
}

/// The rate is the share of the draws that keep an event: at a rate strictly between
/// zero and one an eligible event is kept exactly where the draw, the upper half of the
/// next state, divided by 2^32 is below the rate. With the value of the rate in units of
/// 2^-1074, that is where the draw times 2^1042 is below it.
pub proof fn law_kept_below_rate(config: SampleConfig, level: Level, state: u64)
    requires
        level.rank() <= config.min_level.rank(),
        0 < config.rate.bits < 0x3FF0_0000_0000_0000,
    ensures
        ({
            let (kept, next) = sampled(config, level, state);
            &&& next as int == (state * 6_364_136_223_846_793_005int
                + 1_442_695_040_888_963_407int) % 0x1_0000_0000_0000_0000
            &&& kept <==> (next as int / 0x1_0000_0000) * power2::pow2(1042) < double::magnitude(
                config.rate.bits,
            )
        }),
{
    let bits = config.rate.bits;
    double::lemma_one();
    double::lemma_order(bits, double::ONE);
    double::lemma_order(0, bits);
    double::law_magnitude(bits);
    assert(!double::at_least_one(bits));
    assert(!double::at_most_zero(bits));
    assert(draw_of(next_state(state)) as int == next_state(state) as int / 0x1_0000_0000);
}

/// At a rate of one or more every eligible event is kept, at zero or less none, and
/// neither costs a draw.
pub proof fn law_certain_rates(config: SampleConfig, level: Level, state: u64)
    requires
        level.rank() <= config.min_level.rank(),
    ensures
        0x3FF0_0000_0000_0000 <= config.rate.bits <= 0x7FF0_0000_0000_0000 ==> sampled(
            config,
            level,
            state,
        ) == (true, state),
        config.rate.bits == 0 ==> sampled(config, level, state) == (false, state),
        0x8000_0000_0000_0000 <= config.rate.bits <= 0xFFF0_0000_0000_0000 ==> sampled(
            config,
            level,
            state,
        ) == (false, state),
        double::is_nan(config.rate.bits) ==> !sampled(config, level, state).0,
{
    let bits = config.rate.bits;
    double::lemma_one();
    if double::ONE < bits < double::INFINITY {
        double::lemma_order(double::ONE, bits);
    }
    if bits == 0 {
        double::law_magnitude(bits);
        double::lemma_order(0, double::ONE);
    }
}

/// The number that [`splitmix64`] mixes into `z`: its steps undone, the last one first.
pub open spec fn unmixed(z: u64) -> u64 {
    let second = z ^ (z >> 31) ^ (z >> 62);
    let between = second.wrapping_mul(0x3196_42B2_D24D_8EC3u64);
    let first = between ^ (between >> 27) ^ (between >> 54);
    let before = first.wrapping_mul(0x96DE_1B17_3F11_9089u64);
    before ^ (before >> 30) ^ (before >> 60)
}

/// The finaliser can be undone: the seed can be computed back from what it is mixed into.
pub proof fn law_splitmix64_inverts(seed: u64)
    ensures
        unmixed(mixed(seed)) == seed,
{
    let s0: u64 = seed ^ (seed >> 30);
    let first: u64 = s0.wrapping_mul(0xBF58_476D_1CE4_E5B9u64);
    let s1: u64 = first ^ (first >> 27);
    let second: u64 = s1.wrapping_mul(0x94D0_49BB_1331_11EBu64);
    let z: u64 = second ^ (second >> 31);
    assert(z == mixed(seed));
    assert(z ^ (z >> 31) ^ (z >> 62) == second) by (bit_vector)
        requires
            z == second ^ (second >> 31),
    ;
    lemma_mul_inverse(s1, 0x94D0_49BB_1331_11EB, 0x3196_42B2_D24D_8EC3);
    assert(second.wrapping_mul(0x3196_42B2_D24D_8EC3u64) == s1);
    assert(s1 ^ (s1 >> 27) ^ (s1 >> 54) == first) by (bit_vector)
        requires
            s1 == first ^ (first >> 27),
    ;
    lemma_mul_inverse(s0, 0xBF58_476D_1CE4_E5B9, 0x96DE_1B17_3F11_9089);
    assert(first.wrapping_mul(0x96DE_1B17_3F11_9089u64) == s0);
    assert(s0 ^ (s0 >> 30) ^ (s0 >> 60) == seed) by (bit_vector)
        requires
            s0 == seed ^ (seed >> 30),
    ;
}

/// The seed of a thread is its ordinal's multiple of the golden-ratio stride, apart by
/// the nonce, mixed: undoing the mixing and taking the nonce out leaves the multiple.
pub proof fn law_thread_seed_reads_back(nonce: u64, ordinal: u64)
    ensures
        (unmixed(thread_seed(nonce, ordinal)) ^ nonce) as int == (ordinal
            * 0x9E37_79B9_7F4A_7C15int) % 0x1_0000_0000_0000_0000,
{
    let x: u64 = ordinal.wrapping_mul(GOLDEN_GAMMA);
    law_splitmix64_inverts(nonce ^ x);
    assert((nonce ^ x) ^ nonce == x) by (bit_vector);
}

} // verus!
