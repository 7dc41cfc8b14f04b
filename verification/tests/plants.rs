use xunfollow::rng::{hash_cell, Rng};
use xunfollow::species::{
    d_autumn_color, d_flower_color, d_iterations, d_leaf_color, d_plant_count, d_seed,
    d_stem_color, parse_hex,
};
use xunfollow::world::{assign_species, plant_seed, plant_slots, reseed, species_slot};

#[test]
fn mulberry32_stream() {
    let mut r = Rng::new(1);
    assert_eq!(r.next_u32(), 1_476_511_552);
    assert_eq!(r.next_u32(), 23_764_519);
    assert_eq!(r.next_u32(), 1_280_894_463);
}

#[test]
fn same_seed_same_stream() {
    let mut a = Rng::new(1337);
    let mut b = Rng::new(1337);
    let mut c = a.clone();
    for _ in 0..100 {
        let x = a.next_u32();
        assert_eq!(x, b.next_u32());
        assert_eq!(x, c.next_u32());
    }
}

#[test]
fn zero_seed_does_not_stick() {
    let mut r = Rng::new(0);
    let first = r.next_u32();
    let second = r.next_u32();
    assert_ne!(first, second);
}

#[test]
fn terrain_hash_values() {
    assert_eq!(hash_cell(0, 1337), 304_633_213);
    assert_eq!(hash_cell(-1, 7), 2_220_564_003);
    assert_eq!(hash_cell(5, 0), 1_168_402_289);
}

#[test]
fn species_defaults() {
    assert_eq!(d_seed(), 1337);
    assert_eq!(d_plant_count(), 9);
    assert_eq!(d_iterations(), 5);
    assert_eq!(d_stem_color(), "#6B4A2F");
    assert_eq!(d_leaf_color(), "#4E8C3A");
    assert_eq!(d_autumn_color(), "#C4772F");
    assert_eq!(d_flower_color(), "#E0A6C0");
}

#[test]
fn hex_colours() {
    assert_eq!(parse_hex("#6B4A2F"), Some((0x6B, 0x4A, 0x2F)));
    assert_eq!(parse_hex("  ##fff "), Some((255, 255, 255)));
    assert_eq!(parse_hex("#a1C"), Some((0xaa, 0x11, 0xcc)));
    assert_eq!(parse_hex("+f+f+f"), None);
    assert_eq!(parse_hex("#+F+F+F"), None);
    assert_eq!(parse_hex("#aébcd"), None);
    assert_eq!(parse_hex("#12345"), None);
    assert_eq!(parse_hex("#12345g"), None);
    assert_eq!(parse_hex("#-12345"), None);
    assert_eq!(parse_hex("€"), None);
    assert_eq!(parse_hex(""), None);
}

#[test]
fn plant_count_is_clamped() {
    assert_eq!(plant_slots(0), 1);
    assert_eq!(plant_slots(9), 9);
    assert_eq!(plant_slots(61), 60);
}

#[test]
fn every_species_is_placed() {
    // 3 species over 5 plants: slots 3 and 4 take weighted picks, then the
    // shuffle exchanges slot 4..1 with the drawn slots.
    let a = assign_species(3, 5, &vec![0, 0], &vec![0, 2, 1, 0]);
    assert_eq!(a.len(), 5);
    for s in 0..3 {
        assert!(a.contains(&s), "species {s} missing from {a:?}");
    }
    // Drawn slots beyond the current slot are capped at it.
    let b = assign_species(2, 3, &vec![1], &vec![99, 99]);
    assert_eq!(b, vec![0, 1, 1]);
    // Out-of-range picks are capped at the last species.
    let c = assign_species(2, 3, &vec![7], &vec![2, 1]);
    assert_eq!(c, vec![0, 1, 1]);
}

#[test]
fn shuffle_follows_the_draws() {
    // slots [0,1,2,3]; step 1 swaps 3<->0, step 2 swaps 2<->2, step 3 swaps 1<->0
    let a = assign_species(4, 4, &vec![], &vec![0, 2, 0]);
    assert_eq!(a, vec![1, 3, 2, 0]);
}

#[test]
fn per_plant_seeds() {
    assert_eq!(plant_seed(1337, 0), 2_654_436_480);
    assert_eq!(plant_seed(1337, 1), 1_013_904_971);
    assert_eq!(plant_seed(1337, 2), 3_668_338_706);
    assert_eq!(reseed(1337), 3_239_374_148);
}

#[test]
fn species_slot_is_capped() {
    assert_eq!(species_slot(2, 5), 2);
    assert_eq!(species_slot(7, 5), 4);
    assert_eq!(species_slot(3, 0), 0);
}
