//! A tiny deterministic random number generator (mulberry32), and the integer
//! hash behind the terrain noise. Everything is reproducible from one integer
//! seed: the same seed always regrows the same landscape.

use vstd::prelude::*;
use vstd::arithmetic::div_mod::{lemma_add_mod_noop, lemma_mod_add_multiples_vanish, lemma_small_mod};

verus! {

/// A seeded generator. Its whole state is one 32-bit word.
#[derive(Clone)]
pub struct Rng {
    state: u32,
}

impl View for Rng {
    type V = u32;

    closed spec fn view(&self) -> u32 {
        self.state
    }
}

/// The state a seed starts from (never zero, which would stick at zero).
pub open spec fn seeded_state(seed: u32) -> u32 {
    seed.wrapping_mul(747_796_405).wrapping_add(2_891_336_453) | 1
}

/// The state after one draw.
pub open spec fn advanced_state(state: u32) -> u32 {
    state.wrapping_add(0x6D2B_79F5)
}

/// The mulberry32 output for the advanced state `s`.
pub open spec fn mulberry32(s: u32) -> u32 {
    let z1 = (s ^ (s >> 15u32)).wrapping_mul(s | 1);
    let z2 = z1 ^ z1.wrapping_add((z1 ^ (z1 >> 7u32)).wrapping_mul(z1 | 61));
    z2 ^ (z2 >> 14u32)
}

impl Rng {
    /// A generator seeded with `seed`.
    pub fn new(seed: u32) -> (r: Rng)
        ensures
            r@ == seeded_state(seed),
    {
        Rng { state: seed.wrapping_mul(747_796_405).wrapping_add(2_891_336_453) | 1 }
    }

    /// Next raw 32-bit value (mulberry32).
    pub fn next_u32(&mut self) -> (r: u32)
        ensures
            final(self)@ == advanced_state(old(self)@),
            r == mulberry32(final(self)@),
    {
        self.state = self.state.wrapping_add(0x6D2B_79F5);
        let mut z = self.state;
        z = (z ^ (z >> 15)).wrapping_mul(z | 1);
        z ^= z.wrapping_add((z ^ (z >> 7)).wrapping_mul(z | 61));
        z ^ (z >> 14)
    }
}

/// The integer hash of lattice point `i` of the terrain noise for `seed`.
pub open spec fn cell_hash(i: i32, seed: u32) -> u32 {
    let h0 = (i as u32).wrapping_mul(374_761_393).wrapping_add(seed.wrapping_mul(668_265_263));
    let h1 = (h0 ^ (h0 >> 13u32)).wrapping_mul(1_274_126_177);
    h1 ^ (h1 >> 16u32)
}

/// The hash of lattice point `i` for `seed`; its value over 2^32 is the
/// noise height at that point.
pub fn hash_cell(i: i32, seed: u32) -> (h: u32)
    ensures
        h == cell_hash(i, seed),
{
    let mut h = (i as u32).wrapping_mul(374_761_393).wrapping_add(seed.wrapping_mul(668_265_263));
    h = (h ^ (h >> 13)).wrapping_mul(1_274_126_177);
    h ^ (h >> 16)
}

/// A seeded generator never starts from the zero state.
pub proof fn lemma_seeded_state_nonzero(seed: u32)
    ensures
        seeded_state(seed) != 0,
        seeded_state(seed) & 1 == 1,
{
    let x = seed.wrapping_mul(747_796_405).wrapping_add(2_891_336_453);
    assert((x | 1) & 1 == 1) by (bit_vector);
    assert((x | 1) != 0) by (bit_vector);
}


/// The state after `k` draws from `state`.
pub open spec fn advanced_by(state: u32, k: nat) -> u32
    decreases k,
{
    if k == 0 {
        state
    } else {
        advanced_state(advanced_by(state, (k - 1) as nat))
    }
}

/// The values of the first `k` draws from `state`, in order.
pub open spec fn draws(state: u32, k: nat) -> Seq<u32>
    decreases k,
{
    if k == 0 {
        Seq::empty()
    } else {
        draws(state, (k - 1) as nat).push(mulberry32(advanced_by(state, k)))
    }
}

proof fn lemma_step_mod(p: u32)
    ensures
        advanced_state(p) as int == (p + 0x6D2B_79F5) % 0x1_0000_0000,
{
    if p + 0x6D2B_79F5 > u32::MAX {
        lemma_mod_add_multiples_vanish(p + 0x6D2B_79F5 - 0x1_0000_0000, 0x1_0000_0000);
        lemma_small_mod((p + 0x6D2B_79F5 - 0x1_0000_0000) as nat, 0x1_0000_0000);
    } else {
        lemma_small_mod((p + 0x6D2B_79F5) as nat, 0x1_0000_0000);
    }
}

/// After `k` draws the state has moved on by `k` steps of 0x6D2B79F5,
/// modulo 2^32, and draw `i` is the mulberry32 output of the state after
/// `i + 1` steps: what a generator draws depends on its state alone, so two
/// generators in the same state draw the same values.
pub proof fn lemma_draws(s: u32, t: u32, k: nat)
    ensures
        advanced_by(s, k) as int == (s + k * 0x6D2B_79F5) % 0x1_0000_0000,
        draws(s, k).len() == k,
        forall|i: int| 0 <= i < k ==> #[trigger] draws(s, k)[i] == mulberry32(advanced_by(s, (i + 1) as nat)),
        s == t ==> draws(s, k) == draws(t, k),
    decreases k,
{
    if k == 0 {
        lemma_small_mod(s as nat, 0x1_0000_0000);
    } else {
        lemma_draws(s, t, (k - 1) as nat);
        let p = advanced_by(s, (k - 1) as nat);
        let a: int = s + (k - 1) * 0x6D2B_79F5;
        lemma_step_mod(p);
        assert(((a % 0x1_0000_0000) + 0x6D2B_79F5) % 0x1_0000_0000 == (a + 0x6D2B_79F5) % 0x1_0000_0000) by {
            lemma_small_mod(0x6D2B_79F5, 0x1_0000_0000);
            lemma_add_mod_noop(a, 0x6D2B_79F5, 0x1_0000_0000);
        }
        assert(a + 0x6D2B_79F5 == s + k * 0x6D2B_79F5) by (nonlinear_arith)
            requires a == s + (k - 1) * 0x6D2B_79F5;
    }
}

} // verus!
