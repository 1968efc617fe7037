//! The integer side of a population's life cycle: founding the first
//! generation, picking mates and migration targets, and passing genomes and
//! lineages on to offspring. Energy bookkeeping is not part of it.
use rand_chacha::ChaCha8Rng;
use vstd::prelude::*;

use crate::genome::{all_flips, byte_of, flipped, hamming, is_crossover, no_flips, Genome};
use crate::lineage::{
    lemma_birth_keeps_tracking, lemma_new_lineage_keeps_tracking, tracks, LineageId, LineageLedger,
    LineageTracker, OrganismId,
};
use vstd::multiset::Multiset;
use crate::census::{all_below, group_by_cell, members_of};
use crate::rng::random_index;

verus! {

/// How many partners an organism draws, at most, before giving up.
pub const PARTNER_ATTEMPTS: usize = 6;

/// Every draw is a position of a list of `n` entries.
pub open spec fn valid_draws(draws: Seq<usize>, n: int) -> bool {
    forall|k: int| 0 <= k < draws.len() ==> #[trigger] draws[k] < n
}

/// The partner selected by the positions `draws` of `local`: the first drawn
/// entry other than `idx`, or none.
pub open spec fn first_other(local: Seq<usize>, idx: usize, draws: Seq<usize>) -> Option<usize>
    decreases draws.len(),
{
    if draws.len() == 0 {
        None
    } else if local[draws[0] as int] != idx {
        Some(local[draws[0] as int])
    } else {
        first_other(local, idx, draws.skip(1))
    }
}

proof fn lemma_first_other_prefix(local: Seq<usize>, idx: usize, missed: Seq<usize>, rest: Seq<usize>)
    requires
        forall|k: int| 0 <= k < missed.len() ==> local[#[trigger] missed[k] as int] == idx,
    ensures
        first_other(local, idx, missed + rest) == first_other(local, idx, rest),
    decreases missed.len(),
{
    if missed.len() > 0 {
        let tail = missed.skip(1);
        assert((missed + rest).skip(1) =~= tail + rest);
        assert(local[missed[0] as int] == idx);
        lemma_first_other_prefix(local, idx, tail, rest);
    } else {
        assert(missed + rest =~= rest);
    }
}

/// The partner a single draw `pick` of `local` selects for organism `idx`:
/// the drawn organism, unless it is `idx` itself.
pub fn partner_for_draw(local: &Vec<usize>, idx: usize, pick: usize) -> (partner: Option<usize>)
    requires
        pick < local.len(),
    ensures
        partner == if local@[pick as int] != idx {
            Some(local@[pick as int])
        } else {
            None
        },
{
    let drawn = local[pick];
    if drawn != idx {
        Some(drawn)
    } else {
        None
    }
}

/// Pick a random partner for organism `idx` among the organisms `local` of
/// its cell: up to six draws, the first that is not `idx` itself wins.
pub fn pick_partner(rng: &mut ChaCha8Rng, local: &Vec<usize>, idx: usize) -> (partner: Option<usize>)
    requires
        local.len() > 0,
    ensures
        exists|draws: Seq<usize>|
            draws.len() == PARTNER_ATTEMPTS && valid_draws(draws, local.len() as int) && partner
                == first_other(local@, idx, draws),
        partner matches Some(p) ==> local@.contains(p) && p != idx,
        (forall|k: int| 0 <= k < local.len() ==> local@[k] != idx) ==> partner is Some,
{
    let ghost mut missed: Seq<usize> = Seq::empty();
    let mut attempts: usize = 0;
    loop
        invariant
            local.len() > 0,
            attempts < PARTNER_ATTEMPTS,
            missed.len() == attempts,
            valid_draws(missed, local.len() as int),
            forall|k: int| 0 <= k < missed.len() ==> local@[#[trigger] missed[k] as int] == idx,
        decreases PARTNER_ATTEMPTS - attempts,
    {
        let pick = random_index(rng, 0, local.len());
        if let Some(partner_idx) = partner_for_draw(local, idx, pick) {
            proof {
                let rest = Seq::new((PARTNER_ATTEMPTS - attempts) as nat, |k: int| pick);
                let draws = missed + rest;
                lemma_first_other_prefix(local@, idx, missed, rest);
                assert(draws.len() == PARTNER_ATTEMPTS);
                assert(valid_draws(draws, local.len() as int)) by {
                    assert forall|k: int| 0 <= k < draws.len() implies #[trigger] draws[k]
                        < local.len() by {
                        if k < missed.len() {
                            assert(draws[k] == missed[k]);
                        }
                    }
                }
                assert(first_other(local@, idx, rest) == Some(partner_idx));
            }
            return Some(partner_idx);
        }
        proof {
            missed = missed.push(pick);
            assert(local@[missed[missed.len() - 1] as int] == idx);
        }
        attempts = attempts + 1;
        if attempts >= PARTNER_ATTEMPTS {
            proof {
                lemma_first_other_prefix(local@, idx, missed, Seq::empty());
                assert(missed + Seq::<usize>::empty() =~= missed);
            }
            return None;
        }
    }
}

/// The cell a draw `pick` of the neighbours `adj` selects.
pub fn neighbor_for_draw(adj: &Vec<usize>, pick: usize) -> (dest: usize)
    requires
        pick < adj.len(),
    ensures
        dest == adj@[pick as int],
{
    adj[pick]
}

/// Pick a random cell among the neighbours `adj`: one uniform draw of a
/// position in the list.
pub fn pick_neighbor(rng: &mut ChaCha8Rng, adj: &Vec<usize>) -> (dest: usize)
    requires
        adj.len() > 0,
    ensures
        exists|pick: int| 0 <= pick < adj.len() && dest == adj@[pick],
{
    let pick = random_index(rng, 0, adj.len());
    neighbor_for_draw(adj, pick)
}

/// Whether the lineage snapshot is taken at `tick`.
pub fn snapshot_due(snapshot_interval: u64, tick: u64) -> (due: bool)
    ensures
        due == (snapshot_interval > 0 && tick % snapshot_interval == 0),
{
    snapshot_interval > 0 && tick % snapshot_interval == 0
}

/// An organism of the first generation, without its energy.
#[derive(Clone, Copy, Debug, PartialEq, Eq, Structural)]
pub struct Founder {
    pub id: OrganismId,
    pub genome: Genome,
    pub lineage_id: LineageId,
    pub cell_id: usize,
}

/// The ledger after founding one lineage with one member per genome, in order.
pub open spec fn founded(l: LineageLedger, genomes: Seq<u64>) -> LineageLedger
    decreases genomes.len(),
{
    if genomes.len() == 0 {
        l
    } else {
        let before = founded(l, genomes.drop_last());
        before.with_lineage(None, genomes.last(), 0).with_birth(before.next_id)
    }
}

/// Genomes of a list of founders.
pub open spec fn founder_genomes(f: Seq<Founder>) -> Seq<u64> {
    f.map_values(|x: Founder| x.genome.0)
}

proof fn lemma_founded_next_id(l: LineageLedger, genomes: Seq<u64>)
    requires
        l.next_id + genomes.len() < u64::MAX,
    ensures
        founded(l, genomes).next_id == l.next_id + genomes.len(),
        founded(l, genomes).threshold == l.threshold,
    decreases genomes.len(),
{
    if genomes.len() > 0 {
        lemma_founded_next_id(l, genomes.drop_last());
    }
}

/// Seed the first generation: `count` organisms with random genomes, dealt
/// round-robin over `num_cells` cells, each founding its own lineage at
/// tick 0 with itself as its only member.
pub fn found_population(rng: &mut ChaCha8Rng, tracker: &mut LineageTracker, count: usize, num_cells: usize) -> (founders: Vec<Founder>)
    requires
        count > 0 ==> num_cells > 0,
        old(tracker)@.next_id + count < u64::MAX,
    ensures
        founders.len() == count,
        forall|i: int|
            0 <= i < count ==> (#[trigger] founders[i]).id == i && founders[i].cell_id == i
                % (num_cells as int) && founders[i].lineage_id == old(tracker)@.next_id + i,
        final(tracker)@ == founded(old(tracker)@, founder_genomes(founders@)),
        final(tracker)@.counts.dom().finite(),
{
    let ghost start = tracker@;
    proof {
        tracker.lemma_counts_finite();
    }
    let mut founders: Vec<Founder> = Vec::new();
    let mut i: usize = 0;
    while i < count
        invariant
            i <= count,
            count > 0 ==> num_cells > 0,
            start.next_id + count < u64::MAX,
            founders.len() == i,
            forall|k: int|
                0 <= k < i ==> (#[trigger] founders[k]).id == k && founders[k].cell_id == k
                    % (num_cells as int) && founders[k].lineage_id == start.next_id + k,
            tracker@ == founded(start, founder_genomes(founders@)),
            tracker@.next_id == start.next_id + i,
            tracker@.counts.dom().finite(),
        decreases count - i,
    {
        let id = i as u64;
        let cell_id = i % num_cells;
        let genome = Genome::random(rng);
        let ghost before = tracker@;
        let lineage = tracker.create_lineage(None, &genome, 0);
        tracker.record_birth(lineage);
        let f = Founder { id, genome, lineage_id: lineage, cell_id };
        proof {
            let gs = founder_genomes(founders@.push(f));
            assert(gs.drop_last() =~= founder_genomes(founders@));
            assert(gs.last() == genome.0);
        }
        founders.push(f);
        i = i + 1;
    }
    founders
}

/// Genome and lineage of a child of `parent` (in `parent_lineage`): the
/// parent's genome, mutated; the child joins its parent's lineage unless it
/// has diverged past the threshold, in which case it founds a new one.
pub fn breed_asexual(
    rng: &mut ChaCha8Rng,
    tracker: &mut LineageTracker,
    parent: &Genome,
    parent_lineage: LineageId,
    tick: u64,
) -> (child: (Genome, LineageId))
    requires
        old(tracker)@.next_id < u64::MAX,
        old(tracker)@.count_of(parent_lineage) < u32::MAX,
    ensures
        exists|flips: Seq<bool>|
            flips.len() == 64 && (byte_of(parent.0, 2) == 0 ==> no_flips(flips)) && (byte_of(
                parent.0,
                2,
            ) == 255 ==> all_flips(flips)) && flipped(parent.0, flips, child.0.0),
        byte_of(parent.0, 2) == 0 ==> child.0 == *parent,
        byte_of(parent.0, 2) == 255 ==> child.0.0 == !parent.0,
        child.1 == old(tracker)@.lineage_for(parent.0, child.0.0, parent_lineage),
        final(tracker)@ == old(tracker)@.with_assignment(
            parent.0,
            child.0.0,
            parent_lineage,
            tick,
        ).with_birth(child.1),
        final(tracker)@.counts.dom().finite(),
{
    let child_genome = parent.mutate(rng);
    let lineage = tracker.assign_lineage(parent, &child_genome, parent_lineage, tick);
    tracker.record_birth(lineage);
    (child_genome, lineage)
}

/// `child` is a crossover of `parent` and `partner`, cut somewhere in 1..64,
/// then mutated: some 64 flips, none at mutation rate 0 and all at rate 255
/// (the rate read from the crossed genome), turn the crossed genome into
/// `child`.
pub open spec fn crossover_child(parent: u64, partner: u64, child: u64) -> bool {
    exists|pos: u64, crossed: u64, flips: Seq<bool>|
        1 <= pos < 64 && is_crossover(parent, partner, pos, crossed) && flips.len() == 64 && (byte_of(
            crossed,
            2,
        ) == 0 ==> no_flips(flips)) && (byte_of(crossed, 2) == 255 ==> all_flips(flips))
            && flipped(crossed, flips, child) && (byte_of(crossed, 2) == 0 ==> child == crossed) && (
        byte_of(crossed, 2) == 255 ==> child == !crossed)
}

/// Genome and lineage of a child of `parent` (in `parent_lineage`) and
/// `partner`: a crossover of the two genomes, mutated; lineage as for
/// `breed_asexual`, judged against the first parent.
pub fn breed_with_crossover(
    rng: &mut ChaCha8Rng,
    tracker: &mut LineageTracker,
    parent: &Genome,
    parent_lineage: LineageId,
    partner: &Genome,
    tick: u64,
) -> (child: (Genome, LineageId))
    requires
        old(tracker)@.next_id < u64::MAX,
        old(tracker)@.count_of(parent_lineage) < u32::MAX,
    ensures
        crossover_child(parent.0, partner.0, child.0.0),
        child.1 == old(tracker)@.lineage_for(parent.0, child.0.0, parent_lineage),
        final(tracker)@ == old(tracker)@.with_assignment(
            parent.0,
            child.0.0,
            parent_lineage,
            tick,
        ).with_birth(child.1),
        final(tracker)@.counts.dom().finite(),
{
    let crossed = parent.crossover(partner, rng);
    let child_genome = crossed.mutate(rng);
    let lineage = tracker.assign_lineage(parent, &child_genome, parent_lineage, tick);
    tracker.record_birth(lineage);
    (child_genome, lineage)
}

} // verus!

verus! {

/// The lineage ids `start .. start + n`, as a multiset.
pub open spec fn issued_ids(start: int, n: nat) -> Multiset<LineageId>
    decreases n,
{
    if n == 0 {
        Multiset::empty()
    } else {
        issued_ids(start, (n - 1) as nat).insert((start + n - 1) as u64)
    }
}

/// Founding a generation keeps the ledger counting the living: afterwards
/// it counts the earlier living plus one founder in each new lineage.
pub proof fn lemma_founding_keeps_tracking(l: LineageLedger, living: Multiset<LineageId>, genomes: Seq<u64>)
    requires
        tracks(l, living),
        l.next_id + genomes.len() < u64::MAX,
    ensures
        tracks(founded(l, genomes), living.add(issued_ids(l.next_id as int, genomes.len()))),
    decreases genomes.len(),
{
    broadcast use vstd::multiset::group_multiset_axioms;

    if genomes.len() == 0 {
        assert(living.add(issued_ids(l.next_id as int, 0)) =~= living);
    } else {
        let p = genomes.drop_last();
        lemma_founding_keeps_tracking(l, living, p);
        lemma_founded_next_id(l, p);
        let before = founded(l, p);
        let m = living.add(issued_ids(l.next_id as int, p.len()));
        lemma_new_lineage_keeps_tracking(before, m, None, genomes.last(), 0);
        let c = before.with_lineage(None, genomes.last(), 0);
        assert(c.count_of(before.next_id) == 0);
        lemma_birth_keeps_tracking(c, m, before.next_id);
        assert(m.insert(before.next_id) =~= living.add(
            issued_ids(l.next_id as int, genomes.len()),
        ));
    }
}

} // verus!

verus! {

/// A child produced in a reproduction round, before its energy is settled.
#[derive(Clone, Copy, Debug, PartialEq, Eq, Structural)]
pub struct Birth {
    /// Position of the parent in the population.
    pub parent: usize,
    /// Position of the partner in the population.
    pub partner: usize,
    pub child_id: OrganismId,
    pub genome: Genome,
    pub lineage_id: LineageId,
}

/// The ledger after the first `k` births of a round are recorded: each
/// child is assigned a lineage against its parent, then counted in it.
pub open spec fn after_births(
    l: LineageLedger,
    genomes: Seq<Genome>,
    lineages: Seq<LineageId>,
    births: Seq<Birth>,
    tick: u64,
    k: int,
) -> LineageLedger
    decreases k,
{
    if k <= 0 {
        l
    } else {
        let before = after_births(l, genomes, lineages, births, tick, k - 1);
        let b = births[k - 1];
        before.with_assignment(
            genomes[b.parent as int].0,
            b.genome.0,
            lineages[b.parent as int],
            tick,
        ).with_birth(b.lineage_id)
    }
}

proof fn lemma_after_births_push(
    l: LineageLedger,
    genomes: Seq<Genome>,
    lineages: Seq<LineageId>,
    births: Seq<Birth>,
    b: Birth,
    tick: u64,
    k: int,
)
    requires
        0 <= k <= births.len(),
    ensures
        after_births(l, genomes, lineages, births.push(b), tick, k) == after_births(
            l,
            genomes,
            lineages,
            births,
            tick,
            k,
        ),
    decreases k,
{
    if k > 0 {
        lemma_after_births_push(l, genomes, lineages, births, b, tick, k - 1);
        assert(births.push(b)[k - 1] == births[k - 1]);
    }
}

/// One round of reproduction. In population order, each organism that is
/// fertile, while the population with the children so far is still below
/// `max_population`, and whose cell holds at least two organisms, draws a
/// partner from its cell (`pick_partner`); when one is found it has a
/// crossover child (`breed_with_crossover`) with the next child id.
pub fn breed_round(
    rng: &mut ChaCha8Rng,
    tracker: &mut LineageTracker,
    genomes: &Vec<Genome>,
    lineages: &Vec<LineageId>,
    cell_ids: &Vec<usize>,
    fertile: &Vec<bool>,
    num_cells: usize,
    max_population: usize,
    first_child_id: OrganismId,
    tick: u64,
) -> (births: Vec<Birth>)
    requires
        lineages.len() == genomes.len(),
        cell_ids.len() == genomes.len(),
        fertile.len() == genomes.len(),
        all_below(cell_ids@, num_cells as int),
        old(tracker)@.next_id + genomes.len() < u64::MAX,
        first_child_id + genomes.len() <= u64::MAX,
        forall|i: int|
            0 <= i < genomes.len() ==> old(tracker)@.count_of(#[trigger] lineages@[i]) + genomes.len()
                < u32::MAX,
    ensures
        births.len() <= genomes.len(),
        genomes.len() < 2 ==> births.len() == 0,
        births.len() > 0 ==> genomes.len() + births.len() <= max_population,
        forall|k: int|
            0 <= k < births.len() ==> {
                let b = #[trigger] births@[k];
                &&& b.parent < genomes.len()
                &&& fertile@[b.parent as int]
                &&& b.partner < genomes.len()
                &&& b.partner != b.parent
                &&& cell_ids@[b.partner as int] == cell_ids@[b.parent as int]
                &&& members_of(cell_ids@, cell_ids@[b.parent as int] as int).len() >= 2
                &&& genomes.len() + k < max_population
                &&& b.child_id == first_child_id + k
                &&& crossover_child(genomes@[b.parent as int].0, genomes@[b.partner as int].0, b.genome.0)
                &&& b.lineage_id == after_births(old(tracker)@, genomes@, lineages@, births@, tick, k).lineage_for(
                    genomes@[b.parent as int].0,
                    b.genome.0,
                    lineages@[b.parent as int],
                )
            },
        forall|j: int, k: int| 0 <= j < k < births.len() ==> #[trigger] births@[j].parent < #[trigger] births@[k].parent,
        final(tracker)@ == after_births(old(tracker)@, genomes@, lineages@, births@, tick, births.len() as int),
        final(tracker)@.counts.dom().finite(),
{
    let n = genomes.len();
    let ghost start = tracker@;
    let mut births: Vec<Birth> = Vec::new();
    proof {
        tracker.lemma_counts_finite();
    }
    if n < 2 {
        return births;
    }
    let cell_orgs = group_by_cell(cell_ids, num_cells);
    let mut next_child = first_child_id;
    let mut idx: usize = 0;
    while idx < n
        invariant
            n == genomes.len(),
            n >= 2,
            idx <= n,
            lineages.len() == n,
            cell_ids.len() == n,
            fertile.len() == n,
            cell_orgs.len() == num_cells,
            all_below(cell_ids@, num_cells as int),
            forall|c: int| 0 <= c < num_cells ==> (#[trigger] cell_orgs[c])@ == members_of(cell_ids@, c),
            start.next_id + n < u64::MAX,
            first_child_id + n <= u64::MAX,
            forall|i: int| 0 <= i < n ==> start.count_of(#[trigger] lineages@[i]) + n < u32::MAX,
            births.len() <= idx,
            next_child == first_child_id + births.len(),
            births.len() > 0 ==> n + births.len() <= max_population,
            tracker@.next_id <= start.next_id + births.len(),
            forall|i: int|
                0 <= i < n ==> tracker@.count_of(#[trigger] lineages@[i]) <= start.count_of(lineages@[i])
                    + births.len(),
            tracker@ == after_births(start, genomes@, lineages@, births@, tick, births.len() as int),
            tracker@.counts.dom().finite(),
            forall|k: int|
                0 <= k < births.len() ==> {
                    let b = #[trigger] births@[k];
                    &&& b.parent < idx
                    &&& fertile@[b.parent as int]
                    &&& b.partner < n
                    &&& b.partner != b.parent
                    &&& cell_ids@[b.partner as int] == cell_ids@[b.parent as int]
                    &&& members_of(cell_ids@, cell_ids@[b.parent as int] as int).len() >= 2
                    &&& n + k < max_population
                    &&& b.child_id == first_child_id + k
                    &&& crossover_child(genomes@[b.parent as int].0, genomes@[b.partner as int].0, b.genome.0)
                    &&& b.lineage_id == after_births(start, genomes@, lineages@, births@, tick, k).lineage_for(
                        genomes@[b.parent as int].0,
                        b.genome.0,
                        lineages@[b.parent as int],
                    )
                },
            forall|j: int, k: int| 0 <= j < k < births.len() ==> #[trigger] births@[j].parent < #[trigger] births@[k].parent,
        decreases n - idx,
    {
        if fertile[idx] && n + births.len() < max_population {
            let cell = cell_ids[idx];
            let local = &cell_orgs[cell];
            if local.len() >= 2 {
                if let Some(partner) = pick_partner(rng, local, idx) {
                    proof {
                        crate::census::lemma_members_exact(cell_ids@, cell as int);
                        let j = choose|j: int| 0 <= j < local@.len() && local@[j] == partner;
                        assert(members_of(cell_ids@, cell as int)[j] == partner);
                    }
                    let ghost before = tracker@;
                    let ghost old_births = births@;
                    let child = breed_with_crossover(
                        rng,
                        tracker,
                        &genomes[idx],
                        lineages[idx],
                        &genomes[partner],
                        tick,
                    );
                    let b = Birth {
                        parent: idx,
                        partner,
                        child_id: next_child,
                        genome: child.0,
                        lineage_id: child.1,
                    };
                    births.push(b);
                    proof {
                        assert forall|k: int| 0 <= k <= old_births.len() implies after_births(
                            start,
                            genomes@,
                            lineages@,
                            births@,
                            tick,
                            k,
                        ) == after_births(start, genomes@, lineages@, old_births, tick, k) by {
                            lemma_after_births_push(start, genomes@, lineages@, old_births, b, tick, k);
                        }
                        assert(births@[old_births.len() as int] == b);
                        assert forall|k: int| 0 <= k < old_births.len() implies births@[k] == old_births[k] by {}
                    }
                    next_child = next_child + 1;
                }
            }
        }
        idx = idx + 1;
    }
    births
}

} // verus!

verus! {

/// Lineages of the first `k` children of a round.
pub open spec fn birth_lineages(births: Seq<Birth>, k: int) -> Multiset<LineageId>
    decreases k,
{
    if k <= 0 {
        Multiset::empty()
    } else {
        birth_lineages(births, k - 1).insert(births[k - 1].lineage_id)
    }
}

/// A reproduction round keeps the lineage tracker counting the living: with
/// every parent alive, afterwards it counts the living before the round plus
/// each child in the lineage it was assigned.
pub proof fn lemma_round_keeps_tracking(
    l: LineageLedger,
    living: Multiset<LineageId>,
    genomes: Seq<Genome>,
    lineages: Seq<LineageId>,
    births: Seq<Birth>,
    tick: u64,
    k: int,
)
    requires
        0 <= k <= births.len(),
        tracks(l, living),
        l.next_id + births.len() < u64::MAX,
        living.len() + births.len() < u32::MAX,
        forall|j: int|
            0 <= j < births.len() ==> (#[trigger] births[j]).parent < lineages.len() && living.count(
                lineages[births[j].parent as int],
            ) > 0,
        forall|j: int|
            0 <= j < births.len() ==> (#[trigger] births[j]).lineage_id == after_births(
                l,
                genomes,
                lineages,
                births,
                tick,
                j,
            ).lineage_for(genomes[births[j].parent as int].0, births[j].genome.0, lineages[births[j].parent as int]),
    ensures
        tracks(after_births(l, genomes, lineages, births, tick, k), living.add(birth_lineages(births, k))),
        after_births(l, genomes, lineages, births, tick, k).next_id <= l.next_id + k,
        living.add(birth_lineages(births, k)).len() == living.len() + k,
    decreases k,
{
    broadcast use vstd::multiset::group_multiset_axioms;

    if k == 0 {
        assert(living.add(Multiset::empty()) =~= living);
    } else {
        lemma_round_keeps_tracking(l, living, genomes, lineages, births, tick, k - 1);
        let before = after_births(l, genomes, lineages, births, tick, k - 1);
        let m = living.add(birth_lineages(births, k - 1));
        let b = births[k - 1];
        let pl = lineages[b.parent as int];
        let pg = genomes[b.parent as int].0;
        assert(m.count(pl) >= living.count(pl));
        assert(before.count_of(pl) == m.count(pl));
        assert(m.count(pl) <= m.len()) by {
            vstd::multiset::axiom_count_le_len(m, pl);
        }
        let child = before.lineage_for(pg, b.genome.0, pl);
        assert(b.lineage_id == child);
        if hamming(pg, b.genome.0) > before.threshold {
            lemma_new_lineage_keeps_tracking(before, m, Some(pl), b.genome.0, tick);
            let c = before.with_lineage(Some(pl), b.genome.0, tick);
            lemma_birth_keeps_tracking(c, m, child);
        } else {
            lemma_birth_keeps_tracking(before, m, child);
        }
        assert(m.insert(child) =~= living.add(birth_lineages(births, k)));
    }
}

} // verus!
