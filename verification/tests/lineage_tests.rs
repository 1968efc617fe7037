use primordial::genome::Genome;
use primordial::lineage::{LineageEventType, LineageTracker};

#[test]
fn new_lineage_on_divergence() {
    let mut tracker = LineageTracker::new(4);
    let parent_lineage = tracker.create_lineage(None, &Genome(0xFF), 0);
    tracker.record_birth(parent_lineage);

    // Child genome differs by 8 bits — exceeds threshold of 4
    let parent_genome = Genome(0x00);
    let child_genome = Genome(0xFF);
    let child_lineage = tracker.assign_lineage(&parent_genome, &child_genome, parent_lineage, 1);

    assert_ne!(child_lineage, parent_lineage);
    assert_eq!(tracker.active_lineage_count(), 2);
}

#[test]
fn same_lineage_within_threshold() {
    let mut tracker = LineageTracker::new(8);
    let parent_lineage = tracker.create_lineage(None, &Genome(0x00), 0);
    tracker.record_birth(parent_lineage);

    // Child differs by only 1 bit
    let parent_genome = Genome(0x00);
    let child_genome = Genome(0x01);
    let child_lineage = tracker.assign_lineage(&parent_genome, &child_genome, parent_lineage, 1);

    assert_eq!(child_lineage, parent_lineage);
}

#[test]
fn extinction_on_last_death() {
    let mut tracker = LineageTracker::new(8);
    let lineage = tracker.create_lineage(None, &Genome(0xAA), 0);
    tracker.record_birth(lineage);

    assert_eq!(tracker.active_lineage_count(), 1);
    tracker.record_death(lineage, &Genome(0xAA), 10);
    assert_eq!(tracker.active_lineage_count(), 0);

    let events = tracker.drain_events();
    let extinct_events: Vec<_> = events
        .iter()
        .filter(|e| matches!(e.event_type, LineageEventType::Extinct))
        .collect();
    assert_eq!(extinct_events.len(), 1);
    assert_eq!(extinct_events[0].tick, 10);
}

#[test]
fn lineage_ids_are_issued_in_order() {
    let mut tracker = LineageTracker::new(8);
    let a = tracker.create_lineage(None, &Genome(1), 0);
    let b = tracker.create_lineage(Some(a), &Genome(2), 3);
    let c = tracker.create_lineage(Some(b), &Genome(3), 4);
    assert_eq!((a, b, c), (0, 1, 2));
    let events = tracker.drain_events();
    assert_eq!(events.len(), 3);
    assert!(events.iter().all(|e| matches!(e.event_type, LineageEventType::Emerged)));
    assert_eq!(events[1].parent_lineage_id, Some(0));
    assert_eq!(events[2].genome_snapshot, 3);
    assert_eq!(events[2].tick, 4);
}

#[test]
fn diverged_child_founds_lineage_with_parent_link() {
    let mut tracker = LineageTracker::new(2);
    let parent = tracker.create_lineage(None, &Genome(0), 0);
    tracker.drain_events();
    let child = tracker.assign_lineage(&Genome(0), &Genome(0b111), parent, 9);
    assert_eq!(child, 1);
    let events = tracker.drain_events();
    assert_eq!(events.len(), 1);
    assert!(matches!(events[0].event_type, LineageEventType::Emerged));
    assert_eq!(events[0].parent_lineage_id, Some(parent));
    assert_eq!(events[0].genome_snapshot, 0b111);
    assert_eq!(events[0].tick, 9);
    // Exactly at the threshold stays in the parent lineage.
    assert_eq!(tracker.assign_lineage(&Genome(0), &Genome(0b11), parent, 10), parent);
}

#[test]
fn death_in_unknown_lineage_changes_nothing() {
    let mut tracker = LineageTracker::new(8);
    tracker.record_death(5, &Genome(1), 1);
    assert_eq!(tracker.active_lineage_count(), 0);
    assert!(tracker.drain_events().is_empty());
}

#[test]
fn birth_then_death_restores_counts() {
    let mut tracker = LineageTracker::new(8);
    let id = tracker.create_lineage(None, &Genome(1), 0);
    tracker.record_birth(id);
    tracker.record_birth(id);
    tracker.drain_events();
    tracker.record_birth(id);
    tracker.record_death(id, &Genome(1), 2);
    assert_eq!(tracker.active_lineage_count(), 1);
    assert!(tracker.drain_events().is_empty());
    tracker.snapshot(3);
    let snap = tracker.drain_events();
    assert_eq!(snap.len(), 1);
    assert_eq!(snap[0].population_count, 2);
}

#[test]
fn snapshot_reports_each_active_lineage_once() {
    let mut tracker = LineageTracker::new(8);
    let a = tracker.create_lineage(None, &Genome(1), 0);
    let b = tracker.create_lineage(None, &Genome(2), 0);
    let c = tracker.create_lineage(None, &Genome(3), 0);
    tracker.record_birth(a);
    tracker.record_birth(b);
    tracker.record_birth(b);
    tracker.record_birth(c);
    tracker.record_death(c, &Genome(3), 1);
    tracker.drain_events();
    tracker.snapshot(50);
    let mut snap: Vec<(u64, u32)> = tracker
        .drain_events()
        .iter()
        .map(|e| {
            assert!(matches!(e.event_type, LineageEventType::Snapshot));
            assert_eq!(e.tick, 50);
            assert_eq!(e.parent_lineage_id, None);
            assert_eq!(e.genome_snapshot, 0);
            (e.lineage_id, e.population_count)
        })
        .collect();
    snap.sort();
    assert_eq!(snap, vec![(a, 1), (b, 2)]);
}

#[test]
fn drain_empties_the_buffer() {
    let mut tracker = LineageTracker::new(8);
    tracker.create_lineage(None, &Genome(1), 0);
    assert_eq!(tracker.drain_events().len(), 1);
    assert!(tracker.drain_events().is_empty());
}
