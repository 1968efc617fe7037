use primordial::genome::{apply_flips, Genome};
use primordial::lineage::{LineageEventType, LineageTracker};
use primordial::organism::{cull_dead, retire_first, Organism};
use primordial::run::{plan_after_tick, run_status, TickPlan};

fn org(id: u64, lineage: u64, energy: i32) -> Organism<i32> {
    Organism::new(id, Genome(id), lineage, None, 0, energy, 0)
}

#[test]
fn new_organism_fields() {
    let o = Organism::new(7, Genome(9), 3, Some(2), 11, 50.0f64, 4);
    assert_eq!((o.id, o.genome, o.age, o.lineage_id), (7, Genome(9), 0, 3));
    assert_eq!((o.parent_id, o.born_tick, o.cell_id), (Some(2), 11, 4));
    assert_eq!(o.energy, 50.0);
}

#[test]
fn apply_flips_flips_marked_bits() {
    let mut flips = vec![false; 64];
    flips[0] = true;
    flips[63] = true;
    assert_eq!(apply_flips(0, &flips), 0x8000_0000_0000_0001);
    assert_eq!(apply_flips(u64::MAX, &vec![true; 64]), 0);
    assert_eq!(apply_flips(0x1234, &vec![false; 64]), 0x1234);
}

#[test]
fn cull_moves_last_into_each_gap_and_records_deaths() {
    let mut tracker = LineageTracker::new(8);
    for _ in 0..3 {
        let l = tracker.create_lineage(None, &Genome(0), 0);
        tracker.record_birth(l);
    }
    tracker.record_birth(0);
    tracker.drain_events();
    // organisms 10 (lineage 0), 11 (lineage 1), 12 (lineage 0), 13 (lineage 2)
    let mut orgs = vec![org(10, 0, 5), org(11, 1, -1), org(12, 0, 3), org(13, 2, -2)];
    let dead = vec![false, true, false, true];
    let deaths = cull_dead(&mut orgs, dead, &mut tracker, 4);
    assert_eq!(deaths, 2);
    let ids: Vec<u64> = orgs.iter().map(|o| o.id).collect();
    assert_eq!(ids, vec![10, 12]);
    assert_eq!(tracker.lineage_size(0), 2);
    assert_eq!(tracker.lineage_size(1), 0);
    assert_eq!(tracker.lineage_size(2), 0);
    let events = tracker.drain_events();
    let extinct: Vec<u64> = events
        .iter()
        .filter(|e| matches!(e.event_type, LineageEventType::Extinct))
        .map(|e| e.lineage_id)
        .collect();
    // organism 11 goes first (13 moves into its place and is culled next)
    assert_eq!(extinct, vec![1, 2]);
}

#[test]
fn cull_order_follows_swap_remove() {
    let mut tracker = LineageTracker::new(8);
    let mut orgs = vec![org(1, 0, 0), org(2, 0, 1), org(3, 0, 2), org(4, 0, 3)];
    let dead = vec![true, false, false, false];
    assert_eq!(cull_dead(&mut orgs, dead, &mut tracker, 0), 1);
    let ids: Vec<u64> = orgs.iter().map(|o| o.id).collect();
    assert_eq!(ids, vec![4, 2, 3]);
}

#[test]
fn retire_first_removes_the_front() {
    let mut tracker = LineageTracker::new(8);
    let a = tracker.create_lineage(None, &Genome(0), 0);
    let b = tracker.create_lineage(None, &Genome(0), 0);
    tracker.record_birth(a);
    tracker.record_birth(b);
    tracker.record_birth(b);
    let mut orgs = vec![org(1, a, 1), org(2, b, 2), org(3, b, 3)];
    assert_eq!(retire_first(&mut orgs, 2, &mut tracker, 9), 2);
    let ids: Vec<u64> = orgs.iter().map(|o| o.id).collect();
    assert_eq!(ids, vec![3]);
    assert_eq!(tracker.lineage_size(a), 0);
    assert_eq!(tracker.lineage_size(b), 1);
    assert_eq!(tracker.active_lineage_count(), 1);
}

#[test]
fn run_plan_after_tick() {
    assert_eq!(
        plan_after_tick(2000, 100, false),
        TickPlan { log_summary: true, stop: false, flush: true }
    );
    assert_eq!(
        plan_after_tick(150, 100, false),
        TickPlan { log_summary: false, stop: false, flush: false }
    );
    assert_eq!(
        plan_after_tick(1000, 7, true),
        TickPlan { log_summary: false, stop: true, flush: false }
    );
    assert_eq!(run_status(true), "extinct");
    assert_eq!(run_status(false), "completed");
}
