use vstd::arithmetic::div_mod::{lemma_add_mod_noop, lemma_mod_twice, lemma_small_mod};
use vstd::prelude::*;

verus! {

/// Multiplier of the generator's linear congruential step.
pub const MULTIPLIER: u32 = 0x41C6_4E6D;

/// Increment of the generator's linear congruential step.
pub const INCREMENT: u32 = 0x3039;

/// Number of distinct raw outputs: each is a 15-bit value.
pub const RAW_RANGE: u32 = 0x8000;

/// The state that follows `s`: `s * MULTIPLIER + INCREMENT`, wrapping at 32 bits.
pub open spec fn next_state(s: u32) -> u32 {
    ((s as int * MULTIPLIER as int + INCREMENT as int) % 0x1_0000_0000) as u32
}

/// The raw value read off state `s`: bits 16 to 30.
pub open spec fn raw_output(s: u32) -> u32 {
    (s >> 16u32) & 0x7FFFu32
}

/// The state after `n` steps from `s`.
pub open spec fn state_after(s: u32, n: nat) -> u32
    decreases n,
{
    if n == 0 {
        s
    } else {
        next_state(state_after(s, (n - 1) as nat))
    }
}

/// The first `n` raw values drawn from a generator in state `s`.
pub open spec fn raw_draws(s: u32, n: nat) -> Seq<u32>
    decreases n,
{
    if n == 0 {
        seq![]
    } else {
        raw_draws(s, (n - 1) as nat).push(raw_output(state_after(s, n)))
    }
}

/// Drawing is deterministic and resumable: the first `m + n` raw values drawn from state
/// `s` are the first `m`, followed by the first `n` drawn from the state those `m` draws
/// leave behind.
pub proof fn lemma_draws_continue(s: u32, m: nat, n: nat)
    ensures
        state_after(s, m + n) == state_after(state_after(s, m), n),
        raw_draws(s, m + n) == raw_draws(s, m) + raw_draws(state_after(s, m), n),
    decreases n,
{
    if n > 0 {
        lemma_draws_continue(s, m, (n - 1) as nat);
        assert(raw_draws(s, m + n) =~= raw_draws(s, m) + raw_draws(state_after(s, m), n));
    } else {
        assert(raw_draws(s, m + n) =~= raw_draws(s, m) + raw_draws(state_after(s, m), n));
    }
}

/// A raw value scaled into `0..max`: `raw * max / RAW_RANGE`, rounded down.
pub open spec fn scaled(raw: u32, max: u32) -> u32 {
    ((raw as int * max as int) / (RAW_RANGE as int)) as u32
}

/// The sum of the first `n` weights.
pub open spec fn prefix_sum(w: Seq<u32>, n: nat) -> int
    decreases n,
{
    if n == 0 {
        0
    } else {
        prefix_sum(w, (n - 1) as nat) + w[n - 1] as int
    }
}

/// Whether `r` is the weighted choice for `target` among weights `w`: the first index
/// whose running total exceeds `target`, or `None` where the total does not.
pub open spec fn is_weighted_choice(w: Seq<u32>, target: int, r: Option<usize>) -> bool {
    match r {
        Some(i) => i < w.len() && prefix_sum(w, i as nat) <= target < prefix_sum(w, (i + 1) as nat),
        None => prefix_sum(w, w.len()) <= target,
    }
}

/// The weighted choice for `target` among weights `w` (see `is_weighted_choice`).
#[verifier::opaque]
pub open spec fn weighted_index(w: Seq<u32>, target: int) -> Option<usize> {
    if exists|i: usize| is_weighted_choice(w, target, Some(i)) {
        Some(choose|i: usize| is_weighted_choice(w, target, Some(i)))
    } else {
        None
    }
}

/// At most one answer is a weighted choice: it is `weighted_index`.
pub proof fn lemma_weighted_choice_unique(w: Seq<u32>, target: int, r: Option<usize>)
    requires
        is_weighted_choice(w, target, r),
    ensures
        r == weighted_index(w, target),
{
    reveal(weighted_index);
    match r {
        Some(i) => {
            let j = choose|j: usize| is_weighted_choice(w, target, Some(j));
            if j < i {
                lemma_prefix_sum_monotone(w, (j + 1) as nat, i as nat);
            } else if i < j {
                lemma_prefix_sum_monotone(w, (i + 1) as nat, j as nat);
            }
        },
        None => {
            if exists|i: usize| is_weighted_choice(w, target, Some(i)) {
                let i = choose|i: usize| is_weighted_choice(w, target, Some(i));
                lemma_prefix_sum_monotone(w, (i + 1) as nat, w.len());
            }
        },
    }
}

/// Running totals never decrease.
pub proof fn lemma_prefix_sum_monotone(w: Seq<u32>, m: nat, n: nat)
    requires
        m <= n,
    ensures
        prefix_sum(w, m) <= prefix_sum(w, n),
    decreases n,
{
    if m < n {
        lemma_prefix_sum_monotone(w, m, (n - 1) as nat);
    }
}

/// Picks the first index whose running total of `weights` exceeds `target`.
pub fn pick_weighted(weights: &Vec<u32>, target: u64) -> (r: Option<usize>)
    ensures
        is_weighted_choice(weights@, target as int, r),
        r == weighted_index(weights@, target as int),
{
    let mut total: u64 = 0;
    let mut i: usize = 0;
    while i < weights.len()
        invariant
            i <= weights@.len(),
            total == prefix_sum(weights@, i as nat),
            total <= target,
        decreases weights@.len() - i,
    {
        if weights[i] as u64 > target - total {
            proof {
                lemma_weighted_choice_unique(weights@, target as int, Some(i));
            }
            return Some(i);
        }
        total = total + weights[i] as u64;
        i += 1;
    }
    proof {
        lemma_weighted_choice_unique(weights@, target as int, None);
    }
    None
}

/// One wrapping multiply-and-add step computes `next_state`.
proof fn lemma_wrapping_step(s: u32, next: u32)
    requires
        next == (((s as int * MULTIPLIER as int) % 0x1_0000_0000) + INCREMENT as int) % 0x1_0000_0000,
    ensures
        next == next_state(s),
{
    let m: int = 0x1_0000_0000;
    let prod: int = s as int * MULTIPLIER as int;
    lemma_add_mod_noop(prod, INCREMENT as int, m);
    lemma_small_mod(INCREMENT as nat, m as nat);
    lemma_mod_twice(prod, m);
}

/// One draw from state `s` moves to `next_state(s)` and yields the value read off it.
proof fn lemma_one_draw(s: u32)
    ensures
        state_after(s, 1) == next_state(s),
        raw_draws(s, 1) == seq![raw_output(next_state(s))],
{
    assert(state_after(s, 1) == next_state(state_after(s, 0)));
    assert(raw_draws(s, 0) =~= Seq::<u32>::empty());
    assert(raw_draws(s, 1) == raw_draws(s, 0).push(raw_output(state_after(s, 1))));
    assert(raw_draws(s, 1) =~= seq![raw_output(next_state(s))]);
}

/// The game's pseudo-random generator: a 32-bit linear congruential generator
/// whose outputs are 15-bit values.
pub struct PikminRng {
    state: u32,
}

impl View for PikminRng {
    type V = u32;

    closed spec fn view(&self) -> u32 {
        self.state
    }
}

impl PikminRng {
    /// A generator whose state is `seed`.
    pub fn new(seed: u32) -> (r: Self)
        ensures
            r@ == seed,
    {
        PikminRng { state: seed }
    }

    /// Advances the state one step and returns the raw 15-bit value read off the new state.
    pub fn rand_raw(&mut self) -> (r: u32)
        ensures
            final(self)@ == next_state(old(self)@),
            r == raw_output(final(self)@),
            seq![r] == raw_draws(old(self)@, 1),
            r < RAW_RANGE,
    {
        let next = self.state.wrapping_mul(MULTIPLIER).wrapping_add(INCREMENT);
        let ghost before = self.state;
        proof {
            lemma_wrapping_step(self.state, next);
        }
        self.state = next;
        let r = (next >> 16) & 0x7FFF;
        assert(r < RAW_RANGE) by (bit_vector)
            requires
                r == (next >> 16u32) & 0x7FFFu32,
        ;
        proof {
            lemma_one_draw(before);
        }
        r
    }

    /// Draws a value in `0..max` (`0` where `max` is `0`): the raw draw scaled by
    /// `max / RAW_RANGE` and rounded down.
    pub fn rand_int(&mut self, max: u32) -> (r: u32)
        ensures
            final(self)@ == next_state(old(self)@),
            r == scaled(raw_output(final(self)@), max),
            max > 0 ==> r < max,
            max == 0 ==> r == 0,
    {
        let raw = self.rand_raw();
        assert(raw as int * max as int <= 0x8000 * 0xFFFF_FFFF) by (nonlinear_arith)
            requires
                raw < RAW_RANGE,
        ;
        let p: u64 = raw as u64 * max as u64;
        assert(p / (RAW_RANGE as u64) < max || max == 0) by (nonlinear_arith)
            requires
                p == raw as int * max as int,
                raw < RAW_RANGE,
        ;
        (p / (RAW_RANGE as u64)) as u32
    }

    /// Draws an index of `weights` with probability proportional to its weight; `None`
    /// where all weights are zero. One value is drawn in any case.
    pub fn rand_index_weight(&mut self, weights: &Vec<u32>) -> (r: Option<usize>)
        requires
            prefix_sum(weights@, weights@.len()) <= u32::MAX,
        ensures
            final(self)@ == next_state(old(self)@),
            is_weighted_choice(
                weights@,
                scaled(raw_output(final(self)@), prefix_sum(weights@, weights@.len()) as u32) as int,
                r,
            ),
            r == weighted_index(
                weights@,
                scaled(raw_output(final(self)@), prefix_sum(weights@, weights@.len()) as u32) as int,
            ),
            r is None <==> prefix_sum(weights@, weights@.len()) == 0,
    {
        let mut total: u32 = 0;
        let mut i: usize = 0;
        while i < weights.len()
            invariant
                i <= weights@.len(),
                total == prefix_sum(weights@, i as nat),
                prefix_sum(weights@, weights@.len()) <= u32::MAX,
            decreases weights@.len() - i,
        {
            proof {
                lemma_prefix_sum_monotone(weights@, (i + 1) as nat, weights@.len());
            }
            total = total + weights[i];
            i += 1;
        }
        let target = self.rand_int(total);
        let r = pick_weighted(weights, target as u64);
        proof {
            if let Some(k) = r {
                lemma_prefix_sum_monotone(weights@, (k + 1) as nat, weights@.len());
            }
        }
        r
    }
}

} // verus!
