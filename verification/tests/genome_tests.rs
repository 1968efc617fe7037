use primordial::genome::Genome;
use rand::SeedableRng;
use rand_chacha::ChaCha8Rng;

#[test]
fn bit_field_extraction() {
    let g = Genome(0x0000_0504_0302_0100);
    assert_eq!(g.metabolism_rate(), 0x00);
    assert_eq!(g.repro_threshold(), 0x01);
    assert_eq!(g.mutation_rate(), 0x02);
    assert_eq!(g.mobility(), 0x03);
    assert_eq!(g.heat_tolerance(), 0x04);
    assert_eq!(g.moisture_preference(), 0x05);
}

#[test]
fn mutation_preserves_bit_length() {
    let mut rng = ChaCha8Rng::seed_from_u64(42);
    let g = Genome(0xDEADBEEF_CAFEBABE);
    for _ in 0..1000 {
        let mutated = g.mutate(&mut rng);
        // Always u64 — no overflow possible by construction
        let _ = mutated.0;
    }
}

#[test]
fn zero_mutation_rate_preserves_genome() {
    let mut rng = ChaCha8Rng::seed_from_u64(42);
    // mutation_rate is bits 16-23, set to 0
    let g = Genome(0xFF00FFFF);
    assert_eq!(g.mutation_rate(), 0);
    let mutated = g.mutate(&mut rng);
    assert_eq!(g, mutated);
}

#[test]
fn distance_symmetric() {
    let a = Genome(0xAAAA);
    let b = Genome(0x5555);
    assert_eq!(a.distance(&b), b.distance(&a));
}

#[test]
fn distance_self_is_zero() {
    let g = Genome(0xDEADBEEF);
    assert_eq!(g.distance(&g), 0);
}

#[test]
fn crossover_mixes_parents() {
    let mut rng = ChaCha8Rng::seed_from_u64(42);
    let a = Genome(0x0000_0000_0000_0000);
    let b = Genome(0xFFFF_FFFF_FFFF_FFFF);
    let child = a.crossover(&b, &mut rng);
    // Child should have some bits from each parent
    assert_ne!(child, a);
    assert_ne!(child, b);
    // Lower bits from a (0s), upper bits from b (1s) — or vice versa
    // Either way, it should be a contiguous split
    let bits = child.0;
    let trailing = bits.trailing_zeros();
    let leading = bits.leading_ones();
    // One of these patterns: 0...01...1 or all from one parent at split point
    assert!(trailing + leading >= 1, "crossover should produce contiguous split");
}

#[test]
fn distance_counts_differing_bits() {
    assert_eq!(Genome(0xAAAA).distance(&Genome(0x5555)), 16);
    assert_eq!(Genome(0).distance(&Genome(u64::MAX)), 64);
    assert_eq!(Genome(0b1011).distance(&Genome(0b0001)), 2);
}

#[test]
fn distance_triangle_inequality_example() {
    let a = Genome(0x0F0F);
    let b = Genome(0x00FF);
    let c = Genome(0xFF00);
    assert!(a.distance(&c) <= a.distance(&b) + b.distance(&c));
}

#[test]
fn crossover_at_takes_low_bits_from_self() {
    let a = Genome(0x0000_0000_0000_0000);
    let b = Genome(0xFFFF_FFFF_FFFF_FFFF);
    assert_eq!(a.crossover_at(&b, 8).0, 0xFFFF_FFFF_FFFF_FF00);
    assert_eq!(b.crossover_at(&a, 1).0, 0x0000_0000_0000_0001);
    assert_eq!(a.crossover_at(&b, 63).0, 0x8000_0000_0000_0000);
}

#[test]
fn crossover_child_lies_between_parents() {
    let mut rng = ChaCha8Rng::seed_from_u64(7);
    let a = Genome(0x1234_5678_9ABC_DEF0);
    let b = Genome(0x0FED_CBA9_8765_4321);
    for _ in 0..50 {
        let child = a.crossover(&b, &mut rng);
        assert_eq!(child.distance(&a) + child.distance(&b), a.distance(&b));
    }
    let same = a.crossover(&a, &mut rng);
    assert_eq!(same, a);
}

#[test]
fn full_mutation_rate_flips_every_bit() {
    let mut rng = ChaCha8Rng::seed_from_u64(3);
    let g = Genome(0x0000_0000_00FF_0000);
    assert_eq!(g.mutation_rate(), 255);
    let mutated = g.mutate(&mut rng);
    assert_eq!(mutated.0, !g.0);
    assert_eq!(mutated.distance(&g), 64);
}

#[test]
fn random_genomes_differ() {
    let mut rng = ChaCha8Rng::seed_from_u64(42);
    let a = Genome::random(&mut rng);
    let b = Genome::random(&mut rng);
    assert_ne!(a, b);
}

#[test]
fn crossover_points_vary() {
    let mut rng = ChaCha8Rng::seed_from_u64(42);
    let a = Genome(0);
    let b = Genome(u64::MAX);
    let mut seen = std::collections::HashSet::new();
    for _ in 0..60 {
        seen.insert(a.crossover(&b, &mut rng).0);
    }
    assert!(seen.len() > 1);
}

#[test]
fn partial_mutation_rate_flips_some_bits() {
    let mut rng = ChaCha8Rng::seed_from_u64(42);
    // mutation rate 128/255: about half the bits flip
    let g = Genome(0x0000_0000_0080_0000);
    let mutated = g.mutate(&mut rng);
    let d = mutated.distance(&g);
    assert!(d > 0 && d < 64);
}
