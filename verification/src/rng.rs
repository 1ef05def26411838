//! The linear congruential generator that drives bootstrap resampling and
//! parameter sampling: deterministic for a seed, so runs can be repeated.
use vstd::prelude::*;
use vstd::arithmetic::div_mod::{lemma_add_mod_noop, lemma_mod_bound};

verus! {

/// Multiplier of the generator (Knuth's MMIX constant).
pub const LCG_MULTIPLIER: u64 = 6364136223846793005;

/// Increment of the generator.
pub const LCG_INCREMENT: u64 = 1442695040888963407;

/// The state after one step from `state`: `state * a + c` modulo 2^64.
pub open spec fn lcg_next(state: u64) -> u64 {
    ((state as nat * LCG_MULTIPLIER as nat + LCG_INCREMENT as nat) % 0x1_0000_0000_0000_0000nat) as u64
}

/// The state a seed starts from: a zero seed is replaced by one.
pub open spec fn lcg_start(seed: u64) -> u64 {
    if seed == 0 {
        1
    } else {
        seed
    }
}

/// The state after `k` steps from `seed`.
pub open spec fn lcg_state_after(seed: u64, k: nat) -> u64
    decreases k,
{
    if k == 0 {
        lcg_start(seed)
    } else {
        lcg_next(lcg_state_after(seed, (k - 1) as nat))
    }
}

/// Seed zero gives the same stream as seed one.
pub proof fn lemma_zero_seed_is_one(k: nat)
    ensures
        lcg_state_after(0, k) == lcg_state_after(1, k),
    decreases k,
{
    if k > 0 {
        lemma_zero_seed_is_one((k - 1) as nat);
    }
}

/// Linear congruential pseudo-random generator.
pub struct Lcg {
    state: u64,
}

impl View for Lcg {
    type V = u64;

    /// The generator's state.
    closed spec fn view(&self) -> u64 {
        self.state
    }
}

impl Lcg {
    pub fn new(seed: u64) -> (r: Self)
        ensures
            r@ == lcg_start(seed),
    {
        Self { state: if seed == 0 { 1 } else { seed } }
    }

    /// Advances the state one step and returns it.
    pub fn next_u64(&mut self) -> (r: u64)
        ensures
            final(self)@ == lcg_next(old(self)@),
            r == final(self)@,
    {
        let ghost s = self.state;
        self.state = self.state.wrapping_mul(LCG_MULTIPLIER).wrapping_add(LCG_INCREMENT);
        proof {
            let m: int = 0x1_0000_0000_0000_0000;
            let p: int = (s as nat * LCG_MULTIPLIER as nat) as int;
            lemma_mod_bound(p, m);
            lemma_add_mod_noop(p, LCG_INCREMENT as int, m);
            lemma_mod_bound(LCG_INCREMENT as int, m);
            assert((LCG_INCREMENT as int) % m == LCG_INCREMENT as int) by {
                vstd::arithmetic::div_mod::lemma_small_mod(LCG_INCREMENT as nat, m as nat);
            }
            let q = p % m;
            assert((q + LCG_INCREMENT as int) % m == if q + LCG_INCREMENT as int >= m {
                q + LCG_INCREMENT as int - m
            } else {
                q + LCG_INCREMENT as int
            }) by {
                if q + LCG_INCREMENT as int >= m {
                    vstd::arithmetic::div_mod::lemma_fundamental_div_mod(q + LCG_INCREMENT as int, m);
                    vstd::arithmetic::div_mod::lemma_mod_sub_multiples_vanish(q + LCG_INCREMENT as int, m);
                    vstd::arithmetic::div_mod::lemma_small_mod((q + LCG_INCREMENT as int - m) as nat, m as nat);
                } else {
                    vstd::arithmetic::div_mod::lemma_small_mod((q + LCG_INCREMENT as int) as nat, m as nat);
                }
            }
        }
        self.state
    }

    /// An index below `n`, advancing the state one step; `0`, with the
    /// state kept, when `n` is zero.
    pub fn next_usize(&mut self, n: usize) -> (r: usize)
        ensures
            n == 0 ==> r == 0 && final(self)@ == old(self)@,
            n > 0 ==> final(self)@ == lcg_next(old(self)@) && r as int == (final(self)@ as int) % (n as int),
            n > 0 ==> r < n,
    {
        if n == 0 {
            return 0;
        }
        let x = self.next_u64();
        (x % (n as u64)) as usize
    }
}

} // verus!
