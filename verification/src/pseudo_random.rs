use crate::error::Error;
use core::ops::Range;
use vstd::prelude::*;
use vstd::relations::injective_on;
use vstd::set_lib::{lemma_int_range, lemma_len_subset, lemma_map_size, set_int_range};
use vstd::std_specs::convert::FromSpecImpl;

verus! {

/// Seed of a generator made by `default()`.
pub const DEFAULT_SEED: i64 = 74755;

/// The state that follows state `m`: multiply, add, then keep the low
/// sixteen bits.
pub open spec fn next_state(m: int) -> int {
    (m * 1309 + 13849) % 65536
}

/// The state reached from `seed` after `n` steps.
pub open spec fn state_after(seed: int, n: nat) -> int
    decreases n,
{
    if n == 0 {
        seed
    } else {
        next_state(state_after(seed, (n - 1) as nat))
    }
}

/// Every state after the first step, whatever the seed, fits in sixteen
/// bits.
pub proof fn lemma_state_in_range(seed: int, n: nat)
    requires
        n >= 1,
    ensures
        0 <= state_after(seed, n) <= 65535,
{
}

/// The stream repeats within 65536 steps: among the first 65537 states
/// produced from any seed, two are equal.
pub proof fn lemma_state_repeats(seed: int)
    ensures
        exists|i: int, j: int|
            1 <= i < j <= 65537 && #[trigger] state_after(seed, i as nat) == #[trigger] state_after(
                seed,
                j as nat,
            ),
{
    let f = |i: int| state_after(seed, i as nat);
    let steps = set_int_range(1, 65538);
    let states = steps.map(f);
    lemma_int_range(1, 65538);
    lemma_int_range(0, 65536);
    if injective_on(f, steps) {
        lemma_map_size(steps, states, f);
        assert forall|v: int| states.contains(v) implies set_int_range(0, 65536).contains(v) by {
            let i = choose|i: int| steps.contains(i) && v == f(i);
            lemma_state_in_range(seed, i as nat);
        }
        lemma_len_subset(states, set_int_range(0, 65536));
        assert(false);
    }
    let (a, b) = choose|a: int, b: int|
        steps.contains(a) && steps.contains(b) && #[trigger] f(a) == #[trigger] f(b) && a != b;
    if a < b {
        assert(state_after(seed, a as nat) == state_after(seed, b as nat));
    } else {
        assert(state_after(seed, b as nat) == state_after(seed, a as nat));
    }
}

/// One generated integer, to be converted into the numeric type that the
/// caller wants.
pub struct RandomValue(i64);

impl View for RandomValue {
    type V = int;

    /// The integer held.
    closed spec fn view(&self) -> int {
        self.0 as int
    }
}

impl core::ops::Deref for RandomValue {
    type Target = i64;

    /// Borrows the integer held.
    fn deref(&self) -> (r: &i64)
        ensures
            *r == self@,
    {
        &self.0
    }
}

/// Linear-congruential generator whose stream depends on the seed alone.
pub struct PseudoRandomGenerator {
    m: i64,
}

impl View for PseudoRandomGenerator {
    type V = int;

    /// The current state: the seed, or the last value produced.
    closed spec fn view(&self) -> int {
        self.m as int
    }
}

impl PseudoRandomGenerator {
    /// Resets the state, as if the generator had just been made from `seed`.
    pub fn reseed(&mut self, seed: i64)
        ensures
            final(self)@ == seed,
    {
        self.m = seed;
    }

    /// Advances the state and returns it.
    pub fn next(&mut self) -> (r: RandomValue)
        ensures
            final(self)@ == next_state(old(self)@),
            r@ == final(self)@,
            0 <= r@ <= 65535,
    {
        let wide: i128 = (self.m as i128) * 1309 + 13849;
        let masked: i128 = wide & 65535;
        assert(masked == wide % 65536 && 0 <= masked <= 65535) by (bit_vector)
            requires
                masked == wide & 65535,
        ;
        self.m = masked as i64;
        RandomValue(self.m)
    }

    /// Advances the state and maps it into `range`: the new state, reduced
    /// modulo the width of the range, is added to the start of the range. An
    /// empty or inverted range is refused and leaves the state as it was.
    pub fn next_in_range(&mut self, range: Range<i64>) -> (r: Result<RandomValue, Error>)
        ensures
            range.end <= range.start ==> r == Err::<RandomValue, Error>(Error::DegenerateRange)
                && final(self)@ == old(self)@,
            range.end > range.start ==> {
                &&& r.is_ok()
                &&& final(self)@ == next_state(old(self)@)
                &&& r.unwrap()@ == range.start + final(self)@ % (range.end - range.start)
                &&& range.start <= r.unwrap()@ < range.end
            },
    {
        if range.end <= range.start {
            return Err(Error::DegenerateRange);
        }
        let x: i64 = self.next().0;
        let offset: i64 = match range.end.checked_sub(range.start) {
            Some(width) => x % width,
            None => x,
        };
        proof {
            let width = range.end - range.start;
            if x < width {
                vstd::arithmetic::div_mod::lemma_small_mod(x as nat, width as nat);
            }
            vstd::arithmetic::div_mod::lemma_mod_bound(x as int, width);
            assert(offset == x as int % width);
        }
        Ok(RandomValue(range.start + offset))
    }
}

impl Default for PseudoRandomGenerator {
    /// A generator seeded with the default seed.
    fn default() -> (r: Self)
        ensures
            r@ == 74755,
    {
        PseudoRandomGenerator { m: DEFAULT_SEED }
    }
}

impl From<i64> for PseudoRandomGenerator {
    /// A generator whose state is `seed`, taken as it is.
    fn from(seed: i64) -> (r: Self)
        ensures
            r@ == seed,
    {
        PseudoRandomGenerator { m: seed }
    }
}

impl FromSpecImpl<i64> for PseudoRandomGenerator {
    open spec fn obeys_from_spec() -> bool {
        true
    }

    closed spec fn from_spec(seed: i64) -> Self {
        PseudoRandomGenerator { m: seed }
    }
}

impl From<RandomValue> for i32 {
    /// The integer held, cut to its low 32 bits and read as signed.
    fn from(x: RandomValue) -> (r: i32)
        ensures
            i32::MIN <= x@ <= i32::MAX ==> r == x@,
    {
        #[verifier::truncate]
        (x.0 as i32)
    }
}

impl FromSpecImpl<RandomValue> for i32 {
    open spec fn obeys_from_spec() -> bool {
        true
    }

    open spec fn from_spec(x: RandomValue) -> i32 {
        x@ as i32
    }
}

impl From<RandomValue> for u32 {
    /// The integer held, cut to its low 32 bits and read as unsigned.
    fn from(x: RandomValue) -> (r: u32)
        ensures
            u32::MIN <= x@ <= u32::MAX ==> r == x@,
    {
        #[verifier::truncate]
        (x.0 as u32)
    }
}

impl FromSpecImpl<RandomValue> for u32 {
    open spec fn obeys_from_spec() -> bool {
        true
    }

    open spec fn from_spec(x: RandomValue) -> u32 {
        x@ as u32
    }
}

impl From<RandomValue> for u64 {
    /// The integer held, its 64 bits read as unsigned.
    fn from(x: RandomValue) -> (r: u64)
        ensures
            u64::MIN <= x@ <= u64::MAX ==> r == x@,
    {
        #[verifier::truncate]
        (x.0 as u64)
    }
}

impl FromSpecImpl<RandomValue> for u64 {
    open spec fn obeys_from_spec() -> bool {
        true
    }

    open spec fn from_spec(x: RandomValue) -> u64 {
        x@ as u64
    }
}

impl From<RandomValue> for usize {
    /// The integer held, cut to the platform's word and read as unsigned.
    fn from(x: RandomValue) -> (r: usize)
        ensures
            usize::MIN <= x@ <= usize::MAX ==> r == x@,
    {
        #[verifier::truncate]
        (x.0 as usize)
    }
}

impl FromSpecImpl<RandomValue> for usize {
    open spec fn obeys_from_spec() -> bool {
        true
    }

    open spec fn from_spec(x: RandomValue) -> usize {
        x@ as usize
    }
}

} // verus!
