use primordial::breeding::{
    breed_asexual, breed_round, breed_with_crossover, found_population, neighbor_for_draw,
    partner_for_draw, pick_neighbor, pick_partner, snapshot_due,
};
use primordial::organism::population_excess;
use primordial::config::{GenomeSection, LifespanSection, LineageSection, LogSection, SimSection};
use primordial::genome::Genome;
use primordial::lineage::{LineageEventType, LineageTracker};
use rand::SeedableRng;
use rand_chacha::ChaCha8Rng;

#[test]
fn founders_get_their_own_lineages() {
    let mut rng = ChaCha8Rng::seed_from_u64(42);
    let mut tracker = LineageTracker::new(8);
    let founders = found_population(&mut rng, &mut tracker, 10, 4);
    assert_eq!(founders.len(), 10);
    for (i, f) in founders.iter().enumerate() {
        assert_eq!(f.id, i as u64);
        assert_eq!(f.cell_id, i % 4);
        assert_eq!(f.lineage_id, i as u64);
    }
    assert_eq!(tracker.active_lineage_count(), 10);
    let events = tracker.drain_events();
    assert_eq!(events.len(), 10);
    for (e, f) in events.iter().zip(founders.iter()) {
        assert!(matches!(e.event_type, LineageEventType::Emerged));
        assert_eq!(e.tick, 0);
        assert_eq!(e.parent_lineage_id, None);
        assert_eq!(e.lineage_id, f.lineage_id);
        assert_eq!(e.genome_snapshot, f.genome.0);
    }
}

#[test]
fn partner_is_never_self() {
    let mut rng = ChaCha8Rng::seed_from_u64(1);
    let local = vec![3, 8, 11];
    for _ in 0..100 {
        if let Some(p) = pick_partner(&mut rng, &local, 8) {
            assert!(p == 3 || p == 11);
        }
    }
    // Alone in the cell: no partner after the attempts run out.
    assert_eq!(pick_partner(&mut rng, &vec![5], 5), None);
    // Nobody in the cell is the organism itself: the first draw succeeds.
    assert!(pick_partner(&mut rng, &vec![1, 2], 9).is_some());
}

#[test]
fn neighbor_pick_stays_in_list() {
    let mut rng = ChaCha8Rng::seed_from_u64(5);
    let adj = vec![4, 6, 9];
    for _ in 0..50 {
        assert!(adj.contains(&pick_neighbor(&mut rng, &adj)));
    }
}

#[test]
fn snapshot_schedule() {
    assert!(snapshot_due(100, 0));
    assert!(snapshot_due(100, 300));
    assert!(!snapshot_due(100, 301));
    assert!(!snapshot_due(0, 0));
}

#[test]
fn asexual_child_without_mutation_stays_in_lineage() {
    let mut rng = ChaCha8Rng::seed_from_u64(9);
    let mut tracker = LineageTracker::new(8);
    let parent = Genome(0x0000_0000_0000_ABCD);
    let lineage = tracker.create_lineage(None, &parent, 0);
    tracker.record_birth(lineage);
    let (child, child_lineage) = breed_asexual(&mut rng, &mut tracker, &parent, lineage, 5);
    assert_eq!(child, parent);
    assert_eq!(child_lineage, lineage);
    assert_eq!(tracker.active_lineage_count(), 1);
}

#[test]
fn fully_mutated_child_founds_new_lineage() {
    let mut rng = ChaCha8Rng::seed_from_u64(9);
    let mut tracker = LineageTracker::new(8);
    let parent = Genome(0x0000_0000_00FF_0000);
    let lineage = tracker.create_lineage(None, &parent, 0);
    let (child, child_lineage) = breed_asexual(&mut rng, &mut tracker, &parent, lineage, 5);
    assert_eq!(child.0, !parent.0);
    assert_eq!(child_lineage, lineage + 1);
    assert_eq!(tracker.active_lineage_count(), 2);
}

#[test]
fn crossover_child_mixes_genomes() {
    let mut rng = ChaCha8Rng::seed_from_u64(11);
    let mut tracker = LineageTracker::new(64);
    let parent = Genome(0x0000_0000_0000_0000);
    let partner = Genome(0xFFFF_FFFF_FF00_FFFF);
    let lineage = tracker.create_lineage(None, &parent, 0);
    let (child, child_lineage) =
        breed_with_crossover(&mut rng, &mut tracker, &parent, lineage, &partner, 2);
    assert_eq!(child_lineage, lineage);
    assert_eq!(child.distance(&parent) + child.distance(&partner), parent.distance(&partner));
}

#[test]
fn config_defaults() {
    let sim = SimSection::default();
    assert_eq!((sim.seed, sim.max_ticks, sim.log_interval), (42, 100_000, 100));
    assert_eq!(LifespanSection::default().max_age, 100);
    let lineage = LineageSection::default();
    assert_eq!((lineage.divergence_threshold, lineage.snapshot_interval), (8, 1000));
    assert_eq!(GenomeSection::default().seed, 0xDEADBEEF);
    assert_eq!(LogSection::default().dir, "logs");
}

#[test]
fn neighbor_picks_vary() {
    let mut rng = ChaCha8Rng::seed_from_u64(5);
    let adj = vec![4, 6, 9];
    let mut seen = std::collections::HashSet::new();
    for _ in 0..60 {
        seen.insert(pick_neighbor(&mut rng, &adj));
    }
    assert!(seen.len() > 1);
}

#[test]
fn lineage_counts_follow_living_organisms() {
    let mut rng = ChaCha8Rng::seed_from_u64(21);
    let mut tracker = LineageTracker::new(8);
    let founders = found_population(&mut rng, &mut tracker, 3, 1);
    // living organisms as (genome, lineage)
    let mut living: Vec<(Genome, u64)> = founders.iter().map(|f| (f.genome, f.lineage_id)).collect();
    for k in 0..6 {
        let (g, l) = living[k % living.len()];
        let partner = living[(k + 1) % living.len()].0;
        let child = breed_with_crossover(&mut rng, &mut tracker, &g, l, &partner, k as u64);
        living.push(child);
    }
    let (g, l) = living.remove(0);
    tracker.record_death(l, &g, 7);
    for id in 0..tracker.lineages_created() {
        let alive = living.iter().filter(|(_, l)| *l == id).count() as u32;
        assert_eq!(tracker.lineage_size(id), alive);
    }
}

#[test]
fn partner_for_each_draw() {
    let local = vec![3, 8, 11];
    assert_eq!(partner_for_draw(&local, 8, 0), Some(3));
    assert_eq!(partner_for_draw(&local, 8, 1), None);
    assert_eq!(partner_for_draw(&local, 8, 2), Some(11));
}

#[test]
fn neighbor_for_each_draw() {
    let adj = vec![4, 6, 9];
    assert_eq!(neighbor_for_draw(&adj, 0), 4);
    assert_eq!(neighbor_for_draw(&adj, 2), 9);
}

#[test]
fn breed_round_respects_cells_fertility_and_cap() {
    let mut rng = ChaCha8Rng::seed_from_u64(3);
    let mut tracker = LineageTracker::new(64);
    let founders = found_population(&mut rng, &mut tracker, 6, 2);
    let genomes: Vec<Genome> = founders.iter().map(|f| f.genome).collect();
    let lineages: Vec<u64> = founders.iter().map(|f| f.lineage_id).collect();
    let cells: Vec<usize> = founders.iter().map(|f| f.cell_id).collect();
    let fertile = vec![true, false, true, true, true, true];
    let births = breed_round(
        &mut rng, &mut tracker, &genomes, &lineages, &cells, &fertile, 2, 100, 50, 1,
    );
    assert!(!births.is_empty());
    for (k, b) in births.iter().enumerate() {
        assert!(fertile[b.parent]);
        assert_ne!(b.parent, b.partner);
        assert_eq!(cells[b.parent], cells[b.partner]);
        assert_eq!(b.child_id, 50 + k as u64);
        // threshold 64: children stay in the parent's lineage
        assert_eq!(b.lineage_id, lineages[b.parent]);
    }
    for w in births.windows(2) {
        assert!(w[0].parent < w[1].parent);
    }
    for (i, &l) in lineages.iter().enumerate() {
        let kids = births.iter().filter(|b| b.parent == i).count() as u32;
        assert_eq!(tracker.lineage_size(l), 1 + kids);
    }
    // At the cap, nobody reproduces.
    let none = breed_round(
        &mut rng, &mut tracker, &genomes, &lineages, &cells, &fertile, 2, 6, 60, 2,
    );
    assert!(none.is_empty());
    // One slot left: at most one child.
    let one = breed_round(
        &mut rng, &mut tracker, &genomes, &lineages, &cells, &vec![true; 6], 2, 7, 70, 3,
    );
    assert!(one.len() <= 1);
    // A lone organism never reproduces.
    let lone = breed_round(
        &mut rng, &mut tracker, &genomes[..1].to_vec(), &lineages[..1].to_vec(), &vec![0], &vec![true], 1, 10, 80, 4,
    );
    assert!(lone.is_empty());
}

#[test]
fn population_excess_over_cap() {
    assert_eq!(population_excess(250, 200), 50);
    assert_eq!(population_excess(200, 200), 0);
    assert_eq!(population_excess(10, 200), 0);
}
