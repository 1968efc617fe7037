//! Organisms and the two ways they leave a population: culled where they
//! stand, or retired from the front of an ordered population. The energy an
//! organism carries is whatever the simulation uses (`E`); nothing here
//! reads it.
use vstd::multiset::Multiset;
use vstd::prelude::*;

use crate::genome::Genome;
use crate::lineage::{lemma_death_keeps_tracking, tracks, LineageId, LineageLedger, LineageTracker, OrganismId};

verus! {

broadcast use {
    vstd::seq_lib::group_to_multiset_ensures,
    vstd::multiset::group_multiset_axioms,
    vstd::multiset::group_multiset_properties,
};

pub struct Organism<E> {
    pub id: OrganismId,
    pub genome: Genome,
    pub energy: E,
    pub age: u64,
    pub lineage_id: LineageId,
    pub parent_id: Option<OrganismId>,
    pub born_tick: u64,
    pub cell_id: usize,
}

impl<E> Organism<E> {
    pub fn new(
        id: OrganismId,
        genome: Genome,
        lineage_id: LineageId,
        parent_id: Option<OrganismId>,
        born_tick: u64,
        initial_energy: E,
        cell_id: usize,
    ) -> (o: Self)
        ensures
            o.id == id,
            o.genome == genome,
            o.energy == initial_energy,
            o.age == 0,
            o.lineage_id == lineage_id,
            o.parent_id == parent_id,
            o.born_tick == born_tick,
            o.cell_id == cell_id,
    {
        Self { id, genome, energy: initial_energy, age: 0, lineage_id, parent_id, born_tick, cell_id }
    }
}

/// The lineages of a list of organisms, one entry per organism.
pub open spec fn lineages<E>(orgs: Seq<Organism<E>>) -> Multiset<LineageId> {
    orgs.map_values(|o: Organism<E>| o.lineage_id).to_multiset()
}

/// `s` with entry `i` replaced by the last entry, and the last dropped.
pub open spec fn swap_removed<T>(s: Seq<T>, i: int) -> Seq<T> {
    s.update(i, s.last()).drop_last()
}

/// Culling from position `i` on: every organism flagged dead is removed by
/// moving the last organism into its place, and the position is examined
/// again; unflagged organisms are passed over. Gives the survivors and the
/// removed organisms in the order of removal.
pub open spec fn cull_from<E>(orgs: Seq<Organism<E>>, dead: Seq<bool>, i: int) -> (Seq<Organism<E>>, Seq<Organism<E>>)
    decreases orgs.len() - i,
{
    if i < 0 || i >= orgs.len() || dead.len() != orgs.len() {
        (orgs, Seq::empty())
    } else if dead[i] {
        let rest = cull_from(swap_removed(orgs, i), swap_removed(dead, i), i);
        (rest.0, seq![orgs[i]] + rest.1)
    } else {
        cull_from(orgs, dead, i + 1)
    }
}

/// The ledger after recording the deaths of `removed`, in order.
pub open spec fn deaths_recorded<E>(l: LineageLedger, removed: Seq<Organism<E>>, tick: u64) -> LineageLedger
    decreases removed.len(),
{
    if removed.len() == 0 {
        l
    } else {
        deaths_recorded(
            l.with_death(removed[0].lineage_id, removed[0].genome.0, tick),
            removed.drop_first(),
            tick,
        )
    }
}

proof fn lemma_deaths_recorded_push<E>(l: LineageLedger, removed: Seq<Organism<E>>, o: Organism<E>, tick: u64)
    ensures
        deaths_recorded(l, removed.push(o), tick) == deaths_recorded(l, removed, tick).with_death(
            o.lineage_id,
            o.genome.0,
            tick,
        ),
    decreases removed.len(),
{
    let p = removed.push(o);
    if removed.len() == 0 {
        assert(p.drop_first() =~= Seq::<Organism<E>>::empty());
        assert(p[0] == o);
        let l1 = l.with_death(o.lineage_id, o.genome.0, tick);
        assert(deaths_recorded(l, p, tick) == deaths_recorded(l1, p.drop_first(), tick));
        assert(deaths_recorded(l1, Seq::<Organism<E>>::empty(), tick) == l1);
    } else {
        let l1 = l.with_death(removed[0].lineage_id, removed[0].genome.0, tick);
        lemma_deaths_recorded_push(l1, removed.drop_first(), o, tick);
        assert(p.drop_first() =~= removed.drop_first().push(o));
        assert(p[0] == removed[0]);
    }
}

/// Remove the organisms flagged dead (`dead[i]` flags the organism at
/// position `i`), moving the last organism into each vacated place, and
/// record each death with the lineage tracker. Returns the number removed.
pub fn cull_dead<E>(organisms: &mut Vec<Organism<E>>, dead: Vec<bool>, tracker: &mut LineageTracker, tick: u64) -> (deaths: usize)
    requires
        dead.len() == old(organisms).len(),
    ensures
        final(organisms)@ == cull_from(old(organisms)@, dead@, 0).0,
        final(tracker)@ == deaths_recorded(old(tracker)@, cull_from(old(organisms)@, dead@, 0).1, tick),
        deaths == cull_from(old(organisms)@, dead@, 0).1.len(),
        final(tracker)@.counts.dom().finite(),
{
    let mut flags = dead;
    let ghost target = cull_from(organisms@, flags@, 0);
    let ghost start = tracker@;
    let ghost total = organisms.len();
    let ghost mut so_far: Seq<Organism<E>> = Seq::empty();
    proof {
        tracker.lemma_counts_finite();
        assert(so_far + target.1 =~= target.1);
    }
    let mut count: usize = 0;
    let mut i: usize = 0;
    while i < organisms.len()
        invariant
            flags.len() == organisms.len(),
            i <= organisms.len(),
            count + organisms.len() == total,
            count == so_far.len(),
            cull_from(organisms@, flags@, i as int).0 == target.0,
            so_far + cull_from(organisms@, flags@, i as int).1 == target.1,
            tracker@ == deaths_recorded(start, so_far, tick),
            tracker@.counts.dom().finite(),
        decreases organisms.len() - i,
    {
        if flags[i] {
            let ghost before = organisms@;
            let ghost before_flags = flags@;
            let gone = organisms.swap_remove(i);
            flags.swap_remove(i);
            tracker.record_death(gone.lineage_id, &gone.genome, tick);
            proof {
                lemma_deaths_recorded_push(start, so_far, gone, tick);
                let rest = cull_from(organisms@, flags@, i as int);
                assert(cull_from(before, before_flags, i as int).1 == seq![gone] + rest.1);
                assert(so_far.push(gone) + rest.1 =~= so_far + (seq![gone] + rest.1));
                so_far = so_far.push(gone);
            }
            count = count + 1;
        } else {
            i = i + 1;
        }
    }
    proof {
        assert(so_far + Seq::<Organism<E>>::empty() =~= so_far);
    }
    count
}

/// Remove the first `count` organisms, recording each death with the lineage
/// tracker in order. Returns the number removed.
pub fn retire_first<E>(organisms: &mut Vec<Organism<E>>, count: usize, tracker: &mut LineageTracker, tick: u64) -> (deaths: usize)
    requires
        count <= old(organisms).len(),
    ensures
        final(organisms)@ == old(organisms)@.skip(count as int),
        final(tracker)@ == deaths_recorded(old(tracker)@, old(organisms)@.take(count as int), tick),
        deaths == count,
        final(tracker)@.counts.dom().finite(),
{
    let ghost all = organisms@;
    let ghost start = tracker@;
    let mut retired = organisms.split_off(count);
    std::mem::swap(&mut retired, organisms);
    proof {
        tracker.lemma_counts_finite();
        assert(all.take(count as int) =~= retired@);
        assert(all.skip(count as int) =~= organisms@);
        assert(retired@.take(0) =~= Seq::<Organism<E>>::empty());
    }
    let mut k: usize = 0;
    while k < retired.len()
        invariant
            k <= retired.len(),
            retired.len() == count,
            tracker@ == deaths_recorded(start, retired@.take(k as int), tick),
            tracker@.counts.dom().finite(),
        decreases retired.len() - k,
    {
        let lineage = retired[k].lineage_id;
        let genome = retired[k].genome;
        tracker.record_death(lineage, &genome, tick);
        proof {
            lemma_deaths_recorded_push(start, retired@.take(k as int), retired@[k as int], tick);
            assert(retired@.take(k as int).push(retired@[k as int]) =~= retired@.take(k as int + 1));
        }
        k = k + 1;
    }
    proof {
        assert(retired@.take(count as int) =~= all.take(count as int));
    }
    count
}

} // verus!

verus! {

proof fn lemma_swap_removed_multiset<T>(s: Seq<T>, i: int)
    requires
        0 <= i < s.len(),
    ensures
        swap_removed(s, i).to_multiset() == s.to_multiset().remove(s[i]),
{
    let u = s.update(i, s.last());
    assert(u.drop_last().push(u.last()) =~= u);
    assert(u.last() == s.last());
    assert(u.to_multiset() == s.to_multiset().insert(s.last()).remove(s[i]));
    assert(u.to_multiset() == u.drop_last().to_multiset().insert(s.last()));
    let sr = swap_removed(s, i);
    assert forall|v: T| #[trigger] sr.to_multiset().count(v) == s.to_multiset().remove(s[i]).count(v) by {
        assert(u.to_multiset().count(v) == sr.to_multiset().count(v) + if v == s.last() {
            1nat
        } else {
            0nat
        });
        assert(s.contains(s[i]));
    }
    assert(sr.to_multiset() =~= s.to_multiset().remove(s[i]));
}

proof fn lemma_lineages_swap_removed<E>(orgs: Seq<Organism<E>>, i: int)
    requires
        0 <= i < orgs.len(),
    ensures
        lineages(swap_removed(orgs, i)) == lineages(orgs).remove(orgs[i].lineage_id),
        lineages(orgs).count(orgs[i].lineage_id) > 0,
{
    let f = |o: Organism<E>| o.lineage_id;
    let m = orgs.map_values(f);
    assert(swap_removed(orgs, i).map_values(f) =~= swap_removed(m, i));
    lemma_swap_removed_multiset(m, i);
    assert(m.contains(m[i]));
}

proof fn lemma_cull_from_keeps_tracking<E>(l: LineageLedger, orgs: Seq<Organism<E>>, dead: Seq<bool>, i: int, tick: u64)
    requires
        tracks(l, lineages(orgs)),
    ensures
        tracks(deaths_recorded(l, cull_from(orgs, dead, i).1, tick), lineages(cull_from(orgs, dead, i).0)),
    decreases orgs.len() - i,
{
    if i < 0 || i >= orgs.len() || dead.len() != orgs.len() {
    } else if dead[i] {
        let o = orgs[i];
        let rest_orgs = swap_removed(orgs, i);
        let l1 = l.with_death(o.lineage_id, o.genome.0, tick);
        lemma_lineages_swap_removed(orgs, i);
        lemma_death_keeps_tracking(l, lineages(orgs), o.lineage_id, o.genome.0, tick);
        lemma_cull_from_keeps_tracking(l1, rest_orgs, swap_removed(dead, i), i, tick);
        let rest = cull_from(rest_orgs, swap_removed(dead, i), i);
        let removed = seq![o] + rest.1;
        assert(removed[0] == o);
        assert(removed.drop_first() =~= rest.1);
    } else {
        lemma_cull_from_keeps_tracking(l, orgs, dead, i + 1, tick);
    }
}

/// Culling with its deaths recorded keeps the lineage tracker counting the
/// living: afterwards it counts exactly the survivors.
pub proof fn lemma_cull_keeps_tracking<E>(l: LineageLedger, orgs: Seq<Organism<E>>, dead: Seq<bool>, tick: u64)
    requires
        tracks(l, lineages(orgs)),
    ensures
        tracks(deaths_recorded(l, cull_from(orgs, dead, 0).1, tick), lineages(cull_from(orgs, dead, 0).0)),
{
    lemma_cull_from_keeps_tracking(l, orgs, dead, 0, tick);
}

/// Retiring the first organisms with their deaths recorded keeps the lineage
/// tracker counting the living: afterwards it counts exactly the rest.
pub proof fn lemma_retire_keeps_tracking<E>(l: LineageLedger, orgs: Seq<Organism<E>>, count: int, tick: u64)
    requires
        tracks(l, lineages(orgs)),
        0 <= count <= orgs.len(),
    ensures
        tracks(deaths_recorded(l, orgs.take(count), tick), lineages(orgs.skip(count))),
    decreases count,
{
    if count == 0 {
        assert(orgs.take(0) =~= Seq::<Organism<E>>::empty());
        assert(orgs.skip(0) =~= orgs);
    } else {
        let o = orgs[0];
        let rest = orgs.drop_first();
        let f = |x: Organism<E>| x.lineage_id;
        let m = orgs.map_values(f);
        assert(rest.map_values(f) =~= m.remove(0));
        assert(m.contains(m[0]));
        assert(lineages(rest) == lineages(orgs).remove(o.lineage_id));
        let l1 = l.with_death(o.lineage_id, o.genome.0, tick);
        lemma_death_keeps_tracking(l, lineages(orgs), o.lineage_id, o.genome.0, tick);
        lemma_retire_keeps_tracking(l1, rest, count - 1, tick);
        assert(orgs.take(count)[0] == o);
        assert(orgs.take(count).drop_first() =~= rest.take(count - 1));
        assert(rest.skip(count - 1) =~= orgs.skip(count));
    }
}

/// Culling from position `i` removes exactly the organisms flagged dead at
/// or after `i`: survivors and removed together are the organisms before
/// culling, every removed organism was flagged, and every survivor was
/// either before `i` or not flagged. (`cull_dead` culls from position 0.)
pub proof fn lemma_cull_partitions<E>(orgs: Seq<Organism<E>>, dead: Seq<bool>, i: int)
    requires
        dead.len() == orgs.len(),
        0 <= i,
    ensures
        cull_from(orgs, dead, i).0.to_multiset().add(cull_from(orgs, dead, i).1.to_multiset())
            == orgs.to_multiset(),
        forall|k: int|
            #![trigger cull_from(orgs, dead, i).1[k]]
            0 <= k < cull_from(orgs, dead, i).1.len() ==> exists|j: int|
                #![trigger orgs[j]]
                0 <= j < orgs.len() && dead[j] && orgs[j] == cull_from(orgs, dead, i).1[k],
        forall|k: int|
            #![trigger cull_from(orgs, dead, i).0[k]]
            0 <= k < cull_from(orgs, dead, i).0.len() ==> exists|j: int|
                #![trigger orgs[j]]
                0 <= j < orgs.len() && (j < i || !dead[j]) && orgs[j] == cull_from(orgs, dead, i).0[k],
    decreases orgs.len() - i,
{
    let c = cull_from(orgs, dead, i);
    if i >= orgs.len() {
        assert(c == (orgs, Seq::<Organism<E>>::empty()));
        assert(c.1.to_multiset() =~= Multiset::empty());
        assert(c.0.to_multiset().add(Multiset::empty()) =~= c.0.to_multiset());
        assert forall|k: int| #![trigger c.0[k]] 0 <= k < c.0.len() implies exists|j: int|
            #![trigger orgs[j]]
            0 <= j < orgs.len() && (j < i || !dead[j]) && orgs[j] == c.0[k] by {
            assert(orgs[k] == c.0[k]);
        }
    } else if dead[i] {
        let o = orgs[i];
        let so = swap_removed(orgs, i);
        let sd = swap_removed(dead, i);
        let last = orgs.len() - 1;
        lemma_cull_partitions(so, sd, i);
        let rest = cull_from(so, sd, i);
        assert(c == (rest.0, seq![o] + rest.1));
        lemma_swap_removed_multiset(orgs, i);
        assert(orgs.contains(o));
        vstd::seq_lib::lemma_multiset_commutative(seq![o], rest.1);
        assert(seq![o] =~= Seq::<Organism<E>>::empty().push(o));
        assert(seq![o].to_multiset() =~= Multiset::<Organism<E>>::empty().insert(o));
        assert forall|v: Organism<E>| #[trigger] c.0.to_multiset().add(c.1.to_multiset()).count(v)
            == orgs.to_multiset().count(v) by {
            assert(rest.0.to_multiset().add(rest.1.to_multiset()).count(v) == so.to_multiset().count(v));
            assert(orgs.to_multiset().count(o) > 0);
        }
        assert(c.0.to_multiset().add(c.1.to_multiset()) =~= orgs.to_multiset());
        assert forall|k: int| #![trigger c.1[k]] 0 <= k < c.1.len() implies exists|j: int|
            #![trigger orgs[j]]
            0 <= j < orgs.len() && dead[j] && orgs[j] == c.1[k] by {
            if k == 0 {
                assert(c.1[0] == o);
            } else {
                assert(c.1[k] == rest.1[k - 1]);
                let j2 = choose|j2: int| 0 <= j2 < so.len() && sd[j2] && #[trigger] so[j2] == rest.1[k - 1];
                if j2 == i {
                    assert(orgs[last] == c.1[k] && dead[last]);
                } else {
                    assert(orgs[j2] == c.1[k] && dead[j2]);
                }
            }
        }
        assert forall|k: int| #![trigger c.0[k]] 0 <= k < c.0.len() implies exists|j: int|
            #![trigger orgs[j]]
            0 <= j < orgs.len() && (j < i || !dead[j]) && orgs[j] == c.0[k] by {
            assert(c.0[k] == rest.0[k]);
            let j2 = choose|j2: int|
                0 <= j2 < so.len() && (j2 < i || !sd[j2]) && #[trigger] so[j2] == rest.0[k];
            if j2 == i {
                assert(orgs[last] == c.0[k] && !dead[last]);
            } else {
                assert(orgs[j2] == c.0[k] && (j2 < i || !dead[j2]));
            }
        }
    } else {
        lemma_cull_partitions(orgs, dead, i + 1);
        assert(c == cull_from(orgs, dead, i + 1));
        assert forall|k: int| #![trigger c.0[k]] 0 <= k < c.0.len() implies exists|j: int|
            #![trigger orgs[j]]
            0 <= j < orgs.len() && (j < i || !dead[j]) && orgs[j] == c.0[k] by {
            let j2 = choose|j2: int|
                0 <= j2 < orgs.len() && (j2 < i + 1 || !dead[j2]) && #[trigger] orgs[j2] == c.0[k];
            assert(orgs[j2] == c.0[k] && (j2 < i || !dead[j2]));
        }
    }
}

} // verus!

verus! {

/// How many organisms must go for a population of `len` to respect the cap
/// `max_population` (none when it already does).
pub fn population_excess(len: usize, max_population: usize) -> (excess: usize)
    ensures
        excess == if len > max_population {
            len - max_population
        } else {
            0
        },
        len - excess <= max_population,
{
    if len > max_population {
        len - max_population
    } else {
        0
    }
}

} // verus!
