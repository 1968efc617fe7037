//! Lineage bookkeeping: which lineages are alive, how many organisms each
//! holds, and the log of emergence, extinction and snapshot events.
use std::collections::HashMap;
use vstd::multiset::Multiset;
use vstd::prelude::*;

use crate::genome::{hamming, Genome};
use vstd::std_specs::iter::IteratorSpec;

verus! {

broadcast use {
    vstd::std_specs::hash::group_hash_axioms,
    vstd::multiset::group_multiset_axioms,
    vstd::multiset::group_multiset_properties,
};

pub type OrganismId = u64;

pub type LineageId = u64;

#[derive(Clone, Copy, Debug, PartialEq, Eq, Structural)]
pub enum LineageEventType {
    Emerged,
    Extinct,
    Snapshot,
}

#[derive(Clone, Debug, PartialEq, Eq, Structural)]
pub struct LineageEvent {
    pub event_type: LineageEventType,
    pub tick: u64,
    pub lineage_id: LineageId,
    pub parent_lineage_id: Option<LineageId>,
    pub genome_snapshot: u64,
    pub population_count: u32,
}

/// The event logged when lineage `id` appears.
pub open spec fn emerged_event(tick: u64, id: LineageId, parent: Option<LineageId>, genome: u64) -> LineageEvent {
    LineageEvent {
        event_type: LineageEventType::Emerged,
        tick,
        lineage_id: id,
        parent_lineage_id: parent,
        genome_snapshot: genome,
        population_count: 0,
    }
}

/// The event logged when the last organism of lineage `id` dies.
pub open spec fn extinct_event(tick: u64, id: LineageId, genome: u64) -> LineageEvent {
    LineageEvent {
        event_type: LineageEventType::Extinct,
        tick,
        lineage_id: id,
        parent_lineage_id: None,
        genome_snapshot: genome,
        population_count: 0,
    }
}

/// The event a snapshot logs for lineage `id` holding `count` organisms.
pub open spec fn snapshot_event(tick: u64, id: LineageId, count: u32) -> LineageEvent {
    LineageEvent {
        event_type: LineageEventType::Snapshot,
        tick,
        lineage_id: id,
        parent_lineage_id: None,
        genome_snapshot: 0,
        population_count: count,
    }
}

/// Abstract state of a lineage tracker.
pub struct LineageLedger {
    /// The id the next new lineage receives.
    pub next_id: u64,
    /// Living organisms per active lineage.
    pub counts: Map<LineageId, u32>,
    /// Hamming distance above which a child founds a new lineage.
    pub threshold: u32,
    /// Events not yet drained, oldest first.
    pub events: Seq<LineageEvent>,
}

impl LineageLedger {
    /// Organisms recorded for `id` (0 for a lineage that is not active).
    pub open spec fn count_of(self, id: LineageId) -> u32 {
        if self.counts.contains_key(id) {
            self.counts[id]
        } else {
            0
        }
    }

    /// A new lineage is founded with the next id and no members yet.
    pub open spec fn with_lineage(self, parent: Option<LineageId>, genome: u64, tick: u64) -> LineageLedger {
        LineageLedger {
            next_id: (self.next_id + 1) as u64,
            counts: self.counts.insert(self.next_id, 0),
            threshold: self.threshold,
            events: self.events.push(emerged_event(tick, self.next_id, parent, genome)),
        }
    }

    /// The lineage a child of `parent_genome` in `parent_lineage` belongs to.
    pub open spec fn lineage_for(self, parent_genome: u64, child_genome: u64, parent_lineage: LineageId) -> LineageId {
        if hamming(parent_genome, child_genome) > self.threshold {
            self.next_id
        } else {
            parent_lineage
        }
    }

    /// A child founds a new lineage when it has diverged beyond the threshold.
    pub open spec fn with_assignment(
        self,
        parent_genome: u64,
        child_genome: u64,
        parent_lineage: LineageId,
        tick: u64,
    ) -> LineageLedger {
        if hamming(parent_genome, child_genome) > self.threshold {
            self.with_lineage(Some(parent_lineage), child_genome, tick)
        } else {
            self
        }
    }

    /// One more organism in lineage `id`.
    pub open spec fn with_birth(self, id: LineageId) -> LineageLedger {
        LineageLedger { counts: self.counts.insert(id, (self.count_of(id) + 1) as u32), ..self }
    }

    /// One organism fewer in lineage `id`; the lineage goes extinct when its
    /// count reaches zero. Deaths in inactive lineages change nothing.
    pub open spec fn with_death(self, id: LineageId, genome: u64, tick: u64) -> LineageLedger {
        if !self.counts.contains_key(id) {
            self
        } else if self.counts[id] <= 1 {
            LineageLedger {
                counts: self.counts.remove(id),
                events: self.events.push(extinct_event(tick, id, genome)),
                ..self
            }
        } else {
            LineageLedger { counts: self.counts.insert(id, (self.counts[id] - 1) as u32), ..self }
        }
    }

    /// `after` is this ledger with one snapshot event per active lineage
    /// appended, in some order.
    pub open spec fn snapshot_to(self, tick: u64, after: LineageLedger) -> bool {
        let n = self.events.len();
        let added = after.events.skip(n as int);
        &&& after.next_id == self.next_id
        &&& after.counts == self.counts
        &&& after.threshold == self.threshold
        &&& after.events.len() == n + self.counts.len()
        &&& after.events.take(n as int) == self.events
        &&& forall|j: int|
            0 <= j < added.len() ==> self.counts.contains_key(#[trigger] added[j].lineage_id)
                && added[j] == snapshot_event(tick, added[j].lineage_id, self.counts[added[j].lineage_id])
        &&& forall|j: int, k: int|
            0 <= j < k < added.len() ==> #[trigger] added[j].lineage_id != #[trigger] added[k].lineage_id
        &&& forall|id: LineageId|
            self.counts.contains_key(id) ==> exists|j: int|
                0 <= j < added.len() && #[trigger] added[j].lineage_id == id
    }

    /// The same ledger with no pending events.
    pub open spec fn drained(self) -> LineageLedger {
        LineageLedger { events: Seq::empty(), ..self }
    }
}

pub struct LineageTracker {
    next_lineage_id: LineageId,
    /// Maps lineage_id -> count of living organisms in that lineage
    active_lineages: HashMap<LineageId, u32>,
    /// Hamming distance threshold for forking a new lineage
    divergence_threshold: u32,
    /// Buffered events to flush to log
    pending_events: Vec<LineageEvent>,
}

impl View for LineageTracker {
    type V = LineageLedger;

    closed spec fn view(&self) -> LineageLedger {
        LineageLedger {
            next_id: self.next_lineage_id,
            counts: self.active_lineages@,
            threshold: self.divergence_threshold,
            events: self.pending_events@,
        }
    }
}

impl LineageTracker {
    /// A tracker holds finitely many active lineages.
    pub proof fn lemma_counts_finite(&self)
        ensures
            self@.counts.dom().finite(),
    {
    }

    pub fn new(divergence_threshold: u32) -> (t: Self)
        ensures
            t@.next_id == 0,
            t@.counts == Map::<LineageId, u32>::empty(),
            t@.threshold == divergence_threshold,
            t@.events == Seq::<LineageEvent>::empty(),
            t@.counts.dom().finite(),
    {
        Self {
            next_lineage_id: 0,
            active_lineages: HashMap::new(),
            divergence_threshold,
            pending_events: Vec::new(),
        }
    }

    /// Allocate a fresh lineage ID and emit an Emerged event.
    pub fn create_lineage(&mut self, parent_lineage: Option<LineageId>, genome: &Genome, tick: u64) -> (id: LineageId)
        requires
            old(self)@.next_id < u64::MAX,
        ensures
            id == old(self)@.next_id,
            final(self)@ == old(self)@.with_lineage(parent_lineage, genome.0, tick),
            final(self)@.counts.dom().finite(),
    {
        let id = self.next_lineage_id;
        self.next_lineage_id = self.next_lineage_id + 1;
        self.active_lineages.insert(id, 0);
        self.pending_events.push(
            LineageEvent {
                event_type: LineageEventType::Emerged,
                tick,
                lineage_id: id,
                parent_lineage_id: parent_lineage,
                genome_snapshot: genome.0,
                population_count: 0,
            },
        );
        id
    }

    /// Compare child to parent genome. If diverged enough, fork a new lineage.
    pub fn assign_lineage(
        &mut self,
        parent_genome: &Genome,
        child_genome: &Genome,
        parent_lineage: LineageId,
        tick: u64,
    ) -> (id: LineageId)
        requires
            old(self)@.next_id < u64::MAX,
        ensures
            id == old(self)@.lineage_for(parent_genome.0, child_genome.0, parent_lineage),
            final(self)@ == old(self)@.with_assignment(parent_genome.0, child_genome.0, parent_lineage, tick),
            final(self)@.counts.dom().finite(),
    {
        if parent_genome.distance(child_genome) > self.divergence_threshold {
            self.create_lineage(Some(parent_lineage), child_genome, tick)
        } else {
            parent_lineage
        }
    }

    /// Increment organism count for a lineage.
    pub fn record_birth(&mut self, lineage_id: LineageId)
        requires
            old(self)@.count_of(lineage_id) < u32::MAX,
        ensures
            final(self)@ == old(self)@.with_birth(lineage_id),
            final(self)@.counts.dom().finite(),
    {
        let count: u32 = match self.active_lineages.get(&lineage_id) {
            Some(c) => *c,
            None => 0,
        };
        self.active_lineages.insert(lineage_id, count + 1);
    }

    /// Decrement organism count. Emits Extinct event if count reaches 0.
    pub fn record_death(&mut self, lineage_id: LineageId, genome: &Genome, tick: u64)
        ensures
            final(self)@ == old(self)@.with_death(lineage_id, genome.0, tick),
            final(self)@.counts.dom().finite(),
    {
        let found: Option<u32> = match self.active_lineages.get(&lineage_id) {
            Some(c) => Some(*c),
            None => None,
        };
        if let Some(count) = found {
            let left = count.saturating_sub(1);
            if left == 0 {
                self.pending_events.push(
                    LineageEvent {
                        event_type: LineageEventType::Extinct,
                        tick,
                        lineage_id,
                        parent_lineage_id: None,
                        genome_snapshot: genome.0,
                        population_count: 0,
                    },
                );
                self.active_lineages.remove(&lineage_id);
            } else {
                self.active_lineages.insert(lineage_id, left);
            }
        }
    }

    /// Emit snapshot events for all active lineages (in the order the map
    /// is walked, which the contract leaves open).
    pub fn snapshot(&mut self, tick: u64)
        ensures
            old(self)@.snapshot_to(tick, final(self)@),
            final(self)@.counts.dom().finite(),
    {
        let ghost old_events = self.pending_events@;
        let ghost n = old_events.len();
        let ghost m = self.active_lineages@;
        let ghost walk = vstd::std_specs::hash::spec_hash_map_iter(&self.active_lineages).remaining();
        for (lineage_id, count) in it: self.active_lineages.iter()
            invariant
                self.active_lineages@ == m,
                self.next_lineage_id == old(self).next_lineage_id,
                self.divergence_threshold == old(self).divergence_threshold,
                it.seq() == walk,
                self.pending_events@.len() == n + it.index(),
                self.pending_events@.take(n as int) == old_events,
                forall|j: int|
                    0 <= j < it.index() ==> #[trigger] self.pending_events@[n + j] == snapshot_event(
                        tick,
                        *it.seq()[j].0,
                        *it.seq()[j].1,
                    ),
        {
            self.pending_events.push(
                LineageEvent {
                    event_type: LineageEventType::Snapshot,
                    tick,
                    lineage_id: *lineage_id,
                    parent_lineage_id: None,
                    genome_snapshot: 0,
                    population_count: *count,
                },
            );
        }
        proof {
            assert(self.pending_events@.len() == n + walk.len());
            let after = self.pending_events@;
            let added = after.skip(n as int);
            assert(walk.no_duplicates());
            assert forall|j: int| 0 <= j < added.len() implies m.contains_key(
                #[trigger] added[j].lineage_id,
            ) && added[j] == snapshot_event(tick, added[j].lineage_id, m[added[j].lineage_id]) by {
                assert(added[j] == after[n + j]);
                assert(m.contains_key(*walk[j].0) && m[*walk[j].0] == *walk[j].1);
            }
            assert forall|j: int, k: int| 0 <= j < k < added.len() implies #[trigger] added[j].lineage_id
                != #[trigger] added[k].lineage_id by {
                assert(added[j] == after[n + j]);
                assert(added[k] == after[n + k]);
                assert(m.contains_key(*walk[j].0) && m[*walk[j].0] == *walk[j].1);
                assert(m.contains_key(*walk[k].0) && m[*walk[k].0] == *walk[k].1);
                if added[j].lineage_id == added[k].lineage_id {
                    assert(walk[j] == walk[k]);
                }
            }
            assert(walk.len() == m.dom().len());
            assert(after.take(n as int) == old_events);
            assert forall|id: LineageId| m.contains_key(id) implies exists|j: int|
                0 <= j < added.len() && #[trigger] added[j].lineage_id == id by {
                assert(walk.contains((&id, &m[id])));
                let j = choose|j: int| 0 <= j < walk.len() && walk[j] == (&id, &m[id]);
                assert(added[j] == after[n + j]);
                assert(added[j].lineage_id == id);
            }
        }
    }

    /// Drain buffered events for flushing to log.
    pub fn drain_events(&mut self) -> (events: Vec<LineageEvent>)
        ensures
            events@ == old(self)@.events,
            final(self)@ == old(self)@.drained(),
            final(self)@.counts.dom().finite(),
    {
        let mut events = Vec::new();
        std::mem::swap(&mut events, &mut self.pending_events);
        events
    }

    /// Organisms currently recorded for lineage `lineage_id` (0 when it is
    /// not active).
    pub fn lineage_size(&self, lineage_id: LineageId) -> (n: u32)
        ensures
            n == self@.count_of(lineage_id),
            self@.counts.dom().finite(),
    {
        match self.active_lineages.get(&lineage_id) {
            Some(c) => *c,
            None => 0,
        }
    }

    /// Number of lineages created so far (the id the next one receives).
    pub fn lineages_created(&self) -> (n: u64)
        ensures
            n == self@.next_id,
            self@.counts.dom().finite(),
    {
        self.next_lineage_id
    }

    pub fn active_lineage_count(&self) -> (n: usize)
        ensures
            n == self@.counts.len(),
            self@.counts.dom().finite(),
    {
        self.active_lineages.len()
    }
}

} // verus!

verus! {

/// Emerged events in the log name lineages in strictly increasing id
/// order, all below the next id to be issued.
pub open spec fn emergence_ordered(l: LineageLedger) -> bool {
    &&& forall|i: int|
        0 <= i < l.events.len() && (#[trigger] l.events[i]).event_type == LineageEventType::Emerged
            ==> l.events[i].lineage_id < l.next_id
    &&& forall|i: int, j: int|
        0 <= i < j < l.events.len() && (#[trigger] l.events[i]).event_type
            == LineageEventType::Emerged && (#[trigger] l.events[j]).event_type
            == LineageEventType::Emerged ==> l.events[i].lineage_id < l.events[j].lineage_id
}

/// A birth undone by a death leaves the per-lineage counts as they were,
/// unless the lineage was active with no members (then the pair retires
/// it). When the lineage was not active, the death logs its extinction.
pub proof fn lemma_birth_then_death(l: LineageLedger, id: LineageId, genome: u64, tick: u64)
    requires
        l.count_of(id) < u32::MAX,
        l.counts.contains_key(id) ==> l.counts[id] > 0,
    ensures
        l.with_birth(id).with_death(id, genome, tick).counts == l.counts,
        l.with_birth(id).with_death(id, genome, tick).events == if l.counts.contains_key(id) {
            l.events
        } else {
            l.events.push(extinct_event(tick, id, genome))
        },
{
    let after = l.with_birth(id).with_death(id, genome, tick);
    if l.counts.contains_key(id) {
        assert(after.counts =~= l.counts);
    } else {
        assert(after.counts =~= l.counts);
    }
}

/// Every operation of the tracker keeps the emergence log ordered: lineage
/// ids are issued once each, in increasing order.
pub proof fn lemma_operations_keep_emergence_order(
    l: LineageLedger,
    id: LineageId,
    parent: Option<LineageId>,
    genome: u64,
    child_genome: u64,
    tick: u64,
    after_snapshot: LineageLedger,
)
    requires
        emergence_ordered(l),
        l.next_id < u64::MAX,
        l.snapshot_to(tick, after_snapshot),
    ensures
        emergence_ordered(l.with_lineage(parent, genome, tick)),
        emergence_ordered(l.with_assignment(genome, child_genome, id, tick)),
        emergence_ordered(l.with_birth(id)),
        emergence_ordered(l.with_death(id, genome, tick)),
        emergence_ordered(after_snapshot),
        emergence_ordered(l.drained()),
{
    let c = l.with_lineage(parent, genome, tick);
    assert forall|i: int|
        0 <= i < c.events.len() && (#[trigger] c.events[i]).event_type
            == LineageEventType::Emerged implies c.events[i].lineage_id < c.next_id by {
        if i < l.events.len() {
            assert(c.events[i] == l.events[i]);
        }
    }
    assert forall|i: int, j: int|
        0 <= i < j < c.events.len() && (#[trigger] c.events[i]).event_type
            == LineageEventType::Emerged && (#[trigger] c.events[j]).event_type
            == LineageEventType::Emerged implies c.events[i].lineage_id < c.events[j].lineage_id by {
        assert(c.events[i] == l.events[i]);
        if j < l.events.len() {
            assert(c.events[j] == l.events[j]);
        }
    }
    let d = l.with_death(id, genome, tick);
    if l.counts.contains_key(id) && l.counts[id] <= 1 {
        assert forall|i: int|
            0 <= i < d.events.len() && (#[trigger] d.events[i]).event_type
                == LineageEventType::Emerged implies d.events[i].lineage_id < d.next_id by {
            assert(d.events[i] == l.events[i]);
        }
        assert forall|i: int, j: int|
            0 <= i < j < d.events.len() && (#[trigger] d.events[i]).event_type
                == LineageEventType::Emerged && (#[trigger] d.events[j]).event_type
                == LineageEventType::Emerged implies d.events[i].lineage_id
                < d.events[j].lineage_id by {
            assert(d.events[i] == l.events[i]);
            assert(d.events[j] == l.events[j]);
        }
    }
    let s = after_snapshot;
    let n = l.events.len();
    assert forall|i: int|
        0 <= i < s.events.len() && (#[trigger] s.events[i]).event_type
            == LineageEventType::Emerged implies s.events[i].lineage_id < s.next_id by {
        if i < n {
            assert(s.events.take(n as int)[i] == s.events[i]);
        } else {
            assert(s.events.skip(n as int)[i - n] == s.events[i]);
        }
    }
    assert forall|i: int, j: int|
        0 <= i < j < s.events.len() && (#[trigger] s.events[i]).event_type
            == LineageEventType::Emerged && (#[trigger] s.events[j]).event_type
            == LineageEventType::Emerged implies s.events[i].lineage_id < s.events[j].lineage_id by {
        if i < n {
            assert(s.events.take(n as int)[i] == s.events[i]);
        } else {
            assert(s.events.skip(n as int)[i - n] == s.events[i]);
        }
        if j < n {
            assert(s.events.take(n as int)[j] == s.events[j]);
        } else {
            assert(s.events.skip(n as int)[j - n] == s.events[j]);
        }
    }
}

} // verus!

verus! {

/// The ledger counts exactly the living organisms of each lineage, given
/// the lineage of every living organism (as a multiset); every living
/// organism belongs to a lineage that has been issued.
pub open spec fn tracks(l: LineageLedger, living: Multiset<LineageId>) -> bool {
    forall|id: LineageId|
        #![trigger l.count_of(id)]
        #![trigger living.count(id)]
        l.count_of(id) == living.count(id) && (living.count(id) > 0 ==> id < l.next_id)
}

/// A birth into an issued lineage, recorded, keeps the ledger counting the
/// living.
pub proof fn lemma_birth_keeps_tracking(l: LineageLedger, living: Multiset<LineageId>, id: LineageId)
    requires
        tracks(l, living),
        id < l.next_id,
        l.count_of(id) < u32::MAX,
    ensures
        tracks(l.with_birth(id), living.insert(id)),
{
    let a = l.with_birth(id);
    let m = living.insert(id);
    assert forall|k: LineageId| #[trigger] a.count_of(k) == m.count(k) && (m.count(k) > 0 ==> k
        < a.next_id) by {
        assert(l.count_of(k) == living.count(k));
    }
}

/// A death, recorded, keeps the ledger counting the living.
pub proof fn lemma_death_keeps_tracking(
    l: LineageLedger,
    living: Multiset<LineageId>,
    id: LineageId,
    genome: u64,
    tick: u64,
)
    requires
        tracks(l, living),
        living.count(id) > 0,
    ensures
        tracks(l.with_death(id, genome, tick), living.remove(id)),
{
    let a = l.with_death(id, genome, tick);
    let m = living.remove(id);
    assert(l.count_of(id) == living.count(id));
    assert forall|k: LineageId| #[trigger] a.count_of(k) == m.count(k) && (m.count(k) > 0 ==> k
        < a.next_id) by {
        assert(l.count_of(k) == living.count(k));
    }
}

/// Founding a new lineage (with no members yet) keeps the ledger counting
/// the living.
pub proof fn lemma_new_lineage_keeps_tracking(
    l: LineageLedger,
    living: Multiset<LineageId>,
    parent: Option<LineageId>,
    genome: u64,
    tick: u64,
)
    requires
        tracks(l, living),
        l.next_id < u64::MAX,
    ensures
        tracks(l.with_lineage(parent, genome, tick), living),
{
    let c = l.with_lineage(parent, genome, tick);
    assert(living.count(l.next_id) == 0) by {
        assert(l.count_of(l.next_id) == living.count(l.next_id));
    }
    assert forall|k: LineageId| #[trigger] c.count_of(k) == living.count(k) && (living.count(k) > 0
        ==> k < c.next_id) by {
        assert(l.count_of(k) == living.count(k));
    }
}

/// Assigning a lineage to a newborn and recording its birth, taking a
/// snapshot and draining the log all keep the ledger counting the living.
pub proof fn lemma_operations_keep_tracking(
    l: LineageLedger,
    living: Multiset<LineageId>,
    parent_genome: u64,
    child_genome: u64,
    parent_lineage: LineageId,
    tick: u64,
    after_snapshot: LineageLedger,
)
    requires
        tracks(l, living),
        l.next_id < u64::MAX,
        living.count(parent_lineage) > 0,
        l.count_of(parent_lineage) < u32::MAX,
        l.snapshot_to(tick, after_snapshot),
    ensures
        tracks(
            l.with_assignment(parent_genome, child_genome, parent_lineage, tick).with_birth(
                l.lineage_for(parent_genome, child_genome, parent_lineage),
            ),
            living.insert(l.lineage_for(parent_genome, child_genome, parent_lineage)),
        ),
        tracks(after_snapshot, living),
        tracks(l.drained(), living),
{
    let child = l.lineage_for(parent_genome, child_genome, parent_lineage);
    let assigned = l.with_assignment(parent_genome, child_genome, parent_lineage, tick);
    assert(l.count_of(parent_lineage) == living.count(parent_lineage));
    if hamming(parent_genome, child_genome) > l.threshold {
        let c = l.with_lineage(Some(parent_lineage), child_genome, tick);
        lemma_new_lineage_keeps_tracking(l, living, Some(parent_lineage), child_genome, tick);
        lemma_birth_keeps_tracking(c, living, child);
    } else {
        lemma_birth_keeps_tracking(l, living, child);
    }
    let s = after_snapshot;
    assert forall|k: LineageId| #[trigger] s.count_of(k) == living.count(k) && (living.count(k) > 0
        ==> k < s.next_id) by {
        assert(l.count_of(k) == living.count(k));
    }
    let d = l.drained();
    assert forall|k: LineageId| #[trigger] d.count_of(k) == living.count(k) && (living.count(k) > 0
        ==> k < d.next_id) by {
        assert(l.count_of(k) == living.count(k));
    }
}

} // verus!

verus! {

/// Lineage assignment looks at all 64 bits of the genomes: a child that
/// equals its parent stays in the parent's lineage; at threshold 0, a child
/// differing from its parent in any single bit (high bits included) founds
/// a new lineage; below threshold 64 the complement of the parent always
/// founds one; and a child that differs from the parent wherever a
/// diverged child does (and possibly more) diverges too.
pub proof fn lemma_assignment_counts_every_bit(
    l: LineageLedger,
    parent: Genome,
    child: Genome,
    other: Genome,
    i: u64,
    parent_lineage: LineageId,
    tick: u64,
)
    requires
        i < 64,
    ensures
        l.lineage_for(parent.0, parent.0, parent_lineage) == parent_lineage,
        l.with_assignment(parent.0, parent.0, parent_lineage, tick) == l,
        l.threshold == 0 ==> l.lineage_for(parent.0, parent.0 ^ (1u64 << i), parent_lineage)
            == l.next_id,
        l.threshold == 0 ==> l.with_assignment(parent.0, parent.0 ^ (1u64 << i), parent_lineage, tick)
            == l.with_lineage(Some(parent_lineage), parent.0 ^ (1u64 << i), tick),
        l.threshold < 64 ==> l.lineage_for(parent.0, !parent.0, parent_lineage) == l.next_id,
        l.threshold < 64 ==> l.with_assignment(parent.0, !parent.0, parent_lineage, tick)
            == l.with_lineage(Some(parent_lineage), !parent.0, tick),
        (parent.0 ^ child.0) & !(parent.0 ^ other.0) == 0 && l.lineage_for(
            parent.0,
            child.0,
            parent_lineage,
        ) == l.next_id ==> l.lineage_for(parent.0, other.0, parent_lineage) == l.next_id,
{
    crate::genome::lemma_distance_zero_iff_equal(parent, parent);
    crate::genome::lemma_distance_counts_every_bit(parent, i);
    if (parent.0 ^ child.0) & !(parent.0 ^ other.0) == 0 {
        crate::genome::lemma_distance_monotone(parent, child, other);
    }
}

} // verus!
