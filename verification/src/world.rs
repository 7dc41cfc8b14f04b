//! The integer side of the landscape: how many plants stand on the hillside,
//! which species each one is, and how each plant's generator is seeded.
//!
//! Every species gets at least one individual before the rest are filled in
//! by weight; the list is then shuffled so the guaranteed ones are not all
//! bunched on the left.

use vstd::prelude::*;

verus! {

/// Most plants a landscape holds.
pub const MAX_PLANTS: usize = 60;

/// The number of plants for a requested count: at least one, at most sixty.
pub fn plant_slots(plant_count: usize) -> (n: usize)
    ensures
        n == if plant_count < 1 { 1 } else if plant_count > 60 { 60 } else { plant_count },
{
    if plant_count < 1 {
        1
    } else if plant_count > MAX_PLANTS {
        MAX_PLANTS
    } else {
        plant_count
    }
}

/// The species list before shuffling: slot `i` holds species `i` while there
/// are species left, then the weighted picks in order.
pub open spec fn initial_assignment(species_count: nat, count: nat, picks: Seq<usize>) -> Seq<usize> {
    Seq::new(count, |i: int| if i < species_count { i as usize } else { picks[i - species_count] })
}

/// `s` with the entries at `a` and `b` exchanged.
pub open spec fn swapped(s: Seq<usize>, a: int, b: int) -> Seq<usize> {
    s.update(a, s[b]).update(b, s[a])
}

/// The list after the first `k` shuffle steps: step `t` exchanges slot
/// `len - 1 - t` with the drawn slot `swaps[t]`, capped at that slot.
pub open spec fn shuffled(s: Seq<usize>, swaps: Seq<usize>, k: nat) -> Seq<usize>
    decreases k,
{
    if k == 0 {
        s
    } else {
        let prev = shuffled(s, swaps, (k - 1) as nat);
        let i = s.len() - k;
        let j = if swaps[k - 1] < i { swaps[k - 1] as int } else { i };
        swapped(prev, i, j)
    }
}

/// The species of each plant, from the initial list shuffled by `swaps`,
/// each capped at the last species.
pub open spec fn assignment_of(species_count: nat, count: nat, picks: Seq<usize>, swaps: Seq<usize>) -> Seq<usize> {
    let s = shuffled(initial_assignment(species_count, count, picks), swaps, swaps.len());
    Seq::new(count, |i: int| if s[i] < species_count - 1 { s[i] } else { (species_count - 1) as usize })
}

/// Assign a species to each of `count` plants. `picks` are the weighted
/// draws for the slots beyond the first `species_count`, `swaps` the drawn
/// slots of the shuffle (one per step, for slots `count - 1` down to `1`).
pub fn assign_species(species_count: usize, count: usize, picks: &Vec<usize>, swaps: &Vec<usize>) -> (a: Vec<usize>)
    requires
        species_count >= 1,
        count >= 1,
        picks@.len() == if count > species_count { count - species_count } else { 0 },
        swaps@.len() == count - 1,
    ensures
        a@ == assignment_of(species_count as nat, count as nat, picks@, swaps@),
{
    let mut list: Vec<usize> = Vec::new();
    let mut i: usize = 0;
    while i < count
        invariant
            i <= count,
            picks@.len() == if count > species_count { count - species_count } else { 0 },
            list@ == initial_assignment(species_count as nat, count as nat, picks@).take(i as int),
        decreases count - i,
    {
        if i < species_count {
            list.push(i);
        } else {
            list.push(picks[i - species_count]);
        }
        assert(list@ =~= initial_assignment(species_count as nat, count as nat, picks@).take(i + 1));
        i += 1;
    }
    let ghost initial = initial_assignment(species_count as nat, count as nat, picks@);
    assert(list@ =~= initial);
    let mut k: usize = 0;
    while k < swaps.len()
        invariant
            swaps@.len() == count - 1,
            initial.len() == count,
            k <= swaps@.len(),
            list@ == shuffled(initial, swaps@, k as nat),
            list@.len() == count,
        decreases swaps@.len() - k,
    {
        let slot = count - 1 - k;
        let drawn = swaps[k];
        let j = if drawn < slot { drawn } else { slot };
        let a = list[slot];
        let b = list[j];
        list.set(slot, b);
        list.set(j, a);
        assert(list@ =~= shuffled(initial, swaps@, (k + 1) as nat));
        k += 1;
    }
    let last = species_count - 1;
    let mut out: Vec<usize> = Vec::new();
    let mut t: usize = 0;
    while t < count
        invariant
            t <= count,
            list@.len() == count,
            list@ == shuffled(initial, swaps@, swaps@.len()),
            initial == initial_assignment(species_count as nat, count as nat, picks@),
            species_count >= 1,
            last == species_count - 1,
            out@ == assignment_of(species_count as nat, count as nat, picks@, swaps@).take(t as int),
        decreases count - t,
    {
        let v = list[t];
        out.push(if v < last { v } else { last });
        assert(out@ =~= assignment_of(species_count as nat, count as nat, picks@, swaps@).take(t + 1));
        t += 1;
    }
    assert(out@ =~= assignment_of(species_count as nat, count as nat, picks@, swaps@));
    out
}

/// The next world seed when the hillside is reseeded (a linear
/// congruential step).
pub fn reseed(seed: u32) -> (next: u32)
    ensures
        next == seed.wrapping_mul(1_664_525).wrapping_add(1_013_904_223),
{
    seed.wrapping_mul(1_664_525).wrapping_add(1_013_904_223)
}

/// The seed of plant `i`'s own generator, so that its wobble does not depend
/// on how many plants came before it.
pub open spec fn plant_seed_of(world_seed: u32, i: u32) -> u32 {
    world_seed ^ ((i + 1) as u32).wrapping_mul(0x9E37_79B9)
}

/// The seed of plant `i`'s own generator.
pub fn plant_seed(world_seed: u32, i: u32) -> (s: u32)
    requires
        i < u32::MAX,
    ensures
        s == plant_seed_of(world_seed, i),
{
    world_seed ^ (i + 1).wrapping_mul(0x9E37_79B9)
}

/// The species slot a plant's index refers to, capped at the last species
/// (and zero for an empty species list).
pub fn species_slot(index: usize, species_count: usize) -> (s: usize)
    ensures
        s == if species_count == 0 { 0 } else if index < species_count - 1 { index } else { (species_count - 1) as usize },
{
    let last = species_count.saturating_sub(1);
    if index < last { index } else { last }
}


/// Shuffling only moves entries: every entry of the list is still somewhere
/// after any number of steps.
proof fn lemma_shuffle_keeps_entries(s: Seq<usize>, swaps: Seq<usize>, k: nat, p: int)
    requires
        0 <= p < s.len(),
        k <= swaps.len(),
        swaps.len() + 1 == s.len(),
    ensures
        shuffled(s, swaps, k).len() == s.len(),
        exists|q: int| 0 <= q < s.len() && #[trigger] shuffled(s, swaps, k)[q] == s[p],
    decreases k,
{
    if k == 0 {
        assert(shuffled(s, swaps, 0)[p] == s[p]);
    } else {
        lemma_shuffle_keeps_entries(s, swaps, (k - 1) as nat, p);
        let prev = shuffled(s, swaps, (k - 1) as nat);
        let q = choose|q: int| 0 <= q < s.len() && #[trigger] prev[q] == s[p];
        let i = s.len() - k;
        let j = if swaps[k - 1] < i { swaps[k - 1] as int } else { i };
        let next = shuffled(s, swaps, k);
        assert(next == swapped(prev, i, j));
        if q == i {
            assert(next[j] == s[p]);
        } else if q == j {
            assert(next[i] == s[p]);
        } else {
            assert(next[q] == s[p]);
        }
    }
}

/// Placement never drops a species: when there are at least as many plants
/// as species, every species is assigned to some plant.
pub proof fn lemma_every_species_placed(
    species_count: nat,
    count: nat,
    picks: Seq<usize>,
    swaps: Seq<usize>,
    species: nat,
)
    requires
        1 <= species_count <= count,
        count <= usize::MAX,
        swaps.len() + 1 == count,
        species < species_count,
    ensures
        exists|k: int| 0 <= k < count && #[trigger] assignment_of(species_count, count, picks, swaps)[k] == species,
{
    let initial = initial_assignment(species_count, count, picks);
    assert(initial[species as int] == species);
    lemma_shuffle_keeps_entries(initial, swaps, swaps.len(), species as int);
    let s = shuffled(initial, swaps, swaps.len());
    let q = choose|q: int| 0 <= q < initial.len() && #[trigger] s[q] == initial[species as int];
    assert(assignment_of(species_count, count, picks, swaps)[q] == species);
}

} // verus!
