//! Head counts: organisms per grid cell, organisms per biome, and the
//! organisms of each cell listed by position.
use vstd::prelude::*;

use crate::biome::{biome_name, biome_of_rank, name_rank, BiomeType};

verus! {

/// Number of entries of `s` equal to `c`.
pub open spec fn occurrences(s: Seq<usize>, c: int) -> nat
    decreases s.len(),
{
    if s.len() == 0 {
        0
    } else {
        occurrences(s.drop_last(), c) + if s.last() == c {
            1nat
        } else {
            0nat
        }
    }
}

/// Sum of the entries of `s`.
pub open spec fn sum(s: Seq<usize>) -> int
    decreases s.len(),
{
    if s.len() == 0 {
        0
    } else {
        sum(s.drop_last()) + s.last()
    }
}

/// Every entry of `ids` names one of `n` cells.
pub open spec fn all_below(ids: Seq<usize>, n: int) -> bool {
    forall|i: int| 0 <= i < ids.len() ==> #[trigger] ids[i] < n
}

/// Number of organisms in each of `num_cells` cells, given the cell of
/// each organism.
pub fn tally_cells(cell_ids: &Vec<usize>, num_cells: usize) -> (counts: Vec<usize>)
    requires
        all_below(cell_ids@, num_cells as int),
    ensures
        counts.len() == num_cells,
        forall|c: int| 0 <= c < num_cells ==> #[trigger] counts[c] == occurrences(cell_ids@, c),
{
    let mut counts: Vec<usize> = Vec::new();
    let mut c: usize = 0;
    while c < num_cells
        invariant
            c <= num_cells,
            counts.len() == c,
            forall|k: int| 0 <= k < c ==> #[trigger] counts[k] == 0,
        decreases num_cells - c,
    {
        counts.push(0);
        c = c + 1;
    }
    let mut i: usize = 0;
    while i < cell_ids.len()
        invariant
            i <= cell_ids.len(),
            counts.len() == num_cells,
            all_below(cell_ids@, num_cells as int),
            forall|k: int|
                0 <= k < num_cells ==> #[trigger] counts[k] == occurrences(
                    cell_ids@.take(i as int),
                    k,
                ) && counts[k] <= i,
        decreases cell_ids.len() - i,
    {
        let cell = cell_ids[i];
        proof {
            assert(cell_ids@.take(i as int + 1).drop_last() =~= cell_ids@.take(i as int));
        }
        counts.set(cell, counts[cell] + 1);
        i = i + 1;
    }
    proof {
        assert(cell_ids@.take(cell_ids.len() as int) =~= cell_ids@);
    }
    counts
}

/// Occurrences of each of the cells `0..n`, added up.
pub open spec fn occurrences_below(ids: Seq<usize>, n: int) -> int
    decreases n,
{
    if n <= 0 {
        0
    } else {
        occurrences_below(ids, n - 1) + occurrences(ids, n - 1)
    }
}

proof fn lemma_occurrences_below_push(ids: Seq<usize>, x: usize, n: int)
    requires
        0 <= n,
    ensures
        occurrences_below(ids.push(x), n) == occurrences_below(ids, n) + if x < n {
            1int
        } else {
            0int
        },
    decreases n,
{
    assert(ids.push(x).drop_last() =~= ids);
    if n > 0 {
        lemma_occurrences_below_push(ids, x, n - 1);
    }
}

proof fn lemma_occurrences_below_len(ids: Seq<usize>, n: int)
    requires
        0 <= n,
        all_below(ids, n),
    ensures
        occurrences_below(ids, n) == ids.len(),
    decreases ids.len(),
{
    if ids.len() == 0 {
        lemma_occurrences_below_empty(ids, n);
    } else {
        let p = ids.drop_last();
        assert(all_below(p, n)) by {
            assert forall|i: int| 0 <= i < p.len() implies #[trigger] p[i] < n by {
                assert(p[i] == ids[i]);
            }
        }
        lemma_occurrences_below_len(p, n);
        assert(p.push(ids.last()) =~= ids);
        assert(ids.last() == ids[ids.len() - 1]);
        lemma_occurrences_below_push(p, ids.last(), n);
    }
}

proof fn lemma_occurrences_below_empty(ids: Seq<usize>, n: int)
    requires
        ids.len() == 0,
    ensures
        occurrences_below(ids, n) == 0,
    decreases n,
{
    if n > 0 {
        lemma_occurrences_below_empty(ids, n - 1);
    }
}

proof fn lemma_sum_take_is_occurrences(ids: Seq<usize>, counts: Seq<usize>, k: int)
    requires
        0 <= k <= counts.len(),
        forall|c: int| 0 <= c < counts.len() ==> #[trigger] counts[c] == occurrences(ids, c),
    ensures
        sum(counts.take(k)) == occurrences_below(ids, k),
    decreases k,
{
    if k > 0 {
        lemma_sum_take_is_occurrences(ids, counts, k - 1);
        assert(counts.take(k).drop_last() =~= counts.take(k - 1));
    }
}

/// A cell census accounts for every organism exactly once: the per-cell
/// counts add up to the number of organisms.
pub proof fn lemma_tally_accounts_for_all(cell_ids: Seq<usize>, counts: Seq<usize>, num_cells: int)
    requires
        all_below(cell_ids, num_cells),
        counts.len() == num_cells,
        forall|c: int| 0 <= c < num_cells ==> #[trigger] counts[c] == occurrences(cell_ids, c),
    ensures
        sum(counts) == cell_ids.len(),
{
    lemma_sum_take_is_occurrences(cell_ids, counts, num_cells);
    assert(counts.take(num_cells) =~= counts);
    lemma_occurrences_below_len(cell_ids, num_cells);
}

} // verus!

verus! {

/// Organisms living in cells of biome `b`, among the first `n` cells.
pub open spec fn biome_total(counts: Seq<usize>, biomes: Seq<BiomeType>, b: BiomeType, n: int) -> int
    decreases n,
{
    if n <= 0 {
        0
    } else {
        biome_total(counts, biomes, b, n - 1) + if biomes[n - 1] == b {
            counts[n - 1] as int
        } else {
            0int
        }
    }
}

/// The per-biome table over the alphabetically first `k` biome names: a row
/// `(biome, organisms)` for every biome that labels at least one cell.
pub open spec fn biome_rows(counts: Seq<usize>, biomes: Seq<BiomeType>, k: int) -> Seq<(BiomeType, int)>
    decreases k,
{
    if k <= 0 {
        Seq::empty()
    } else {
        let rows = biome_rows(counts, biomes, k - 1);
        let b = biome_of_rank(k - 1);
        if biomes.contains(b) {
            rows.push((b, biome_total(counts, biomes, b, counts.len() as int)))
        } else {
            rows
        }
    }
}

/// The per-biome table: one row per biome present on the grid, ordered by
/// biome name, holding the organisms of all cells of that biome.
pub open spec fn biome_table(counts: Seq<usize>, biomes: Seq<BiomeType>) -> Seq<(BiomeType, int)> {
    biome_rows(counts, biomes, 6)
}

fn rank_of(b: &BiomeType) -> (r: usize)
    ensures
        r == name_rank(*b),
{
    match b {
        BiomeType::Desert => 0,
        BiomeType::Grassland => 1,
        BiomeType::Ice => 2,
        BiomeType::TemperateForest => 3,
        BiomeType::Tropical => 4,
        BiomeType::Tundra => 5,
    }
}

fn biome_at_rank(r: usize) -> (b: BiomeType)
    requires
        r < 6,
    ensures
        b == biome_of_rank(r as int),
{
    if r == 0 {
        BiomeType::Desert
    } else if r == 1 {
        BiomeType::Grassland
    } else if r == 2 {
        BiomeType::Ice
    } else if r == 3 {
        BiomeType::TemperateForest
    } else if r == 4 {
        BiomeType::Tropical
    } else {
        BiomeType::Tundra
    }
}

proof fn lemma_biome_total_bounded(counts: Seq<usize>, biomes: Seq<BiomeType>, b: BiomeType, n: int)
    requires
        0 <= n <= counts.len(),
    ensures
        0 <= biome_total(counts, biomes, b, n) <= sum(counts.take(n)),
    decreases n,
{
    if n > 0 {
        lemma_biome_total_bounded(counts, biomes, b, n - 1);
        assert(counts.take(n).drop_last() =~= counts.take(n - 1));
    }
}

proof fn lemma_sum_take_monotone(s: Seq<usize>, n: int)
    requires
        0 <= n <= s.len(),
    ensures
        0 <= sum(s.take(n)) <= sum(s),
    decreases s.len() - n,
{
    if n < s.len() {
        lemma_sum_take_monotone(s, n + 1);
        assert(s.take(n + 1).drop_last() =~= s.take(n));
        lemma_sum_nonnegative(s.take(n));
    } else {
        assert(s.take(n) =~= s);
        lemma_sum_nonnegative(s);
    }
}

proof fn lemma_sum_nonnegative(s: Seq<usize>)
    ensures
        0 <= sum(s),
    decreases s.len(),
{
    if s.len() > 0 {
        lemma_sum_nonnegative(s.drop_last());
    }
}

/// Per-biome population counts as (biome_name, count) pairs, ordered by
/// name, given the organisms of each cell and each cell's biome.
pub fn biome_populations(cell_counts: &Vec<usize>, cell_biomes: &Vec<BiomeType>) -> (table: Vec<(String, usize)>)
    requires
        cell_counts.len() == cell_biomes.len(),
        sum(cell_counts@) <= usize::MAX,
    ensures
        table.len() == biome_table(cell_counts@, cell_biomes@).len(),
        forall|k: int|
            0 <= k < table.len() ==> (#[trigger] table[k]).0@ == biome_name(
                biome_table(cell_counts@, cell_biomes@)[k].0,
            ) && table[k].1 == biome_table(cell_counts@, cell_biomes@)[k].1,
{
    let ghost counts = cell_counts@;
    let ghost biomes = cell_biomes@;
    let mut totals: Vec<usize> = Vec::new();
    let mut present: Vec<bool> = Vec::new();
    let mut r: usize = 0;
    while r < 6
        invariant
            r <= 6,
            totals.len() == r,
            present.len() == r,
            forall|k: int| 0 <= k < r ==> #[trigger] totals[k] == 0,
            forall|k: int| 0 <= k < r ==> !#[trigger] present[k],
        decreases 6 - r,
    {
        totals.push(0);
        present.push(false);
        r = r + 1;
    }
    proof {
        assert(biomes.take(0) =~= Seq::<BiomeType>::empty());
        assert forall|k: int| 0 <= k < 6 implies #[trigger] present[k] == biomes.take(0).contains(
            biome_of_rank(k),
        ) by {
            assert(!present[k]);
            assert(!biomes.take(0).contains(biome_of_rank(k)));
        }
        assert forall|k: int| 0 <= k < 6 implies #[trigger] totals[k] == biome_total(
            counts,
            biomes,
            biome_of_rank(k),
            0,
        ) by {
            assert(totals[k] == 0);
        }
    }
    let mut i: usize = 0;
    while i < cell_counts.len()
        invariant
            i <= cell_counts.len(),
            counts == cell_counts@,
            biomes == cell_biomes@,
            cell_counts.len() == cell_biomes.len(),
            sum(counts) <= usize::MAX,
            totals.len() == 6,
            present.len() == 6,
            forall|k: int|
                0 <= k < 6 ==> #[trigger] totals[k] == biome_total(
                    counts,
                    biomes,
                    biome_of_rank(k),
                    i as int,
                ),
            forall|k: int|
                0 <= k < 6 ==> #[trigger] present[k] == biomes.take(i as int).contains(
                    biome_of_rank(k),
                ),
        decreases cell_counts.len() - i,
    {
        let k = rank_of(&cell_biomes[i]);
        proof {
            let b = biomes[i as int];
            assert(biome_of_rank(k as int) == b);
            lemma_biome_total_bounded(counts, biomes, b, i as int + 1);
            lemma_sum_take_monotone(counts, i as int + 1);
            assert forall|q: int| 0 <= q < 6 implies biomes.take(i as int + 1).contains(
                biome_of_rank(q),
            ) == (biomes.take(i as int).contains(biome_of_rank(q)) || b == biome_of_rank(q)) by {
                let t = biomes.take(i as int + 1);
                if biomes.take(i as int).contains(biome_of_rank(q)) {
                    let j = choose|j: int|
                        0 <= j < i && biomes.take(i as int)[j] == biome_of_rank(q);
                    assert(t[j] == biome_of_rank(q));
                }
                if b == biome_of_rank(q) {
                    assert(t[i as int] == b);
                }
                if t.contains(biome_of_rank(q)) {
                    let j = choose|j: int| 0 <= j <= i && t[j] == biome_of_rank(q);
                    if j < i {
                        assert(biomes.take(i as int)[j] == biome_of_rank(q));
                    }
                }
            }
        }
        totals.set(k, totals[k] + cell_counts[i]);
        present.set(k, true);
        proof {
            assert forall|q: int| 0 <= q < 6 implies #[trigger] totals[q] == biome_total(
                counts,
                biomes,
                biome_of_rank(q),
                i as int + 1,
            ) by {
                assert(biome_total(counts, biomes, biome_of_rank(q), i as int + 1) == biome_total(
                    counts,
                    biomes,
                    biome_of_rank(q),
                    i as int,
                ) + if biomes[i as int] == biome_of_rank(q) {
                    counts[i as int] as int
                } else {
                    0int
                });
                crate::biome::lemma_rank_is_bijective(biome_of_rank(q), q);
                crate::biome::lemma_rank_is_bijective(biomes[i as int], q);
            }
        }
        i = i + 1;
    }
    proof {
        assert(biomes.take(cell_counts.len() as int) =~= biomes);
    }
    let mut table: Vec<(String, usize)> = Vec::new();
    let mut r: usize = 0;
    while r < 6
        invariant
            r <= 6,
            counts == cell_counts@,
            biomes == cell_biomes@,
            totals.len() == 6,
            present.len() == 6,
            forall|k: int|
                0 <= k < 6 ==> #[trigger] totals[k] == biome_total(
                    counts,
                    biomes,
                    biome_of_rank(k),
                    counts.len() as int,
                ),
            forall|k: int| 0 <= k < 6 ==> #[trigger] present[k] == biomes.contains(biome_of_rank(k)),
            table.len() == biome_rows(counts, biomes, r as int).len(),
            forall|k: int|
                0 <= k < table.len() ==> (#[trigger] table[k]).0@ == biome_name(
                    biome_rows(counts, biomes, r as int)[k].0,
                ) && table[k].1 == biome_rows(counts, biomes, r as int)[k].1,
        decreases 6 - r,
    {
        proof {
            assert(biome_rows(counts, biomes, r as int + 1) == if biomes.contains(
                biome_of_rank(r as int),
            ) {
                biome_rows(counts, biomes, r as int).push(
                    (
                        biome_of_rank(r as int),
                        biome_total(counts, biomes, biome_of_rank(r as int), counts.len() as int),
                    ),
                )
            } else {
                biome_rows(counts, biomes, r as int)
            });
        }
        if present[r] {
            let b = biome_at_rank(r);
            let name = b.name().to_owned();
            table.push((name, totals[r]));
        }
        r = r + 1;
    }
    table
}

} // verus!

verus! {

/// Organisms counted in the rows of a per-biome table.
pub open spec fn table_sum(t: Seq<(BiomeType, int)>) -> int
    decreases t.len(),
{
    if t.len() == 0 {
        0
    } else {
        table_sum(t.drop_last()) + t.last().1
    }
}

spec fn rank_sum(counts: Seq<usize>, biomes: Seq<BiomeType>, k: int, n: int) -> int
    decreases k,
{
    if k <= 0 {
        0
    } else {
        rank_sum(counts, biomes, k - 1, n) + biome_total(counts, biomes, biome_of_rank(k - 1), n)
    }
}

proof fn lemma_absent_biome_total(counts: Seq<usize>, biomes: Seq<BiomeType>, b: BiomeType, n: int)
    requires
        0 <= n <= biomes.len(),
        !biomes.contains(b),
    ensures
        biome_total(counts, biomes, b, n) == 0,
    decreases n,
{
    if n > 0 {
        lemma_absent_biome_total(counts, biomes, b, n - 1);
        assert(biomes[n - 1] != b);
    }
}

proof fn lemma_rows_sum(counts: Seq<usize>, biomes: Seq<BiomeType>, k: int)
    requires
        0 <= k <= 6,
        counts.len() == biomes.len(),
    ensures
        table_sum(biome_rows(counts, biomes, k)) == rank_sum(counts, biomes, k, counts.len() as int),
    decreases k,
{
    if k > 0 {
        lemma_rows_sum(counts, biomes, k - 1);
        let b = biome_of_rank(k - 1);
        let rows = biome_rows(counts, biomes, k - 1);
        if biomes.contains(b) {
            let t = rows.push((b, biome_total(counts, biomes, b, counts.len() as int)));
            assert(t.drop_last() =~= rows);
        } else {
            lemma_absent_biome_total(counts, biomes, b, counts.len() as int);
        }
    }
}

proof fn lemma_ranks_cover_cells(counts: Seq<usize>, biomes: Seq<BiomeType>, n: int)
    requires
        0 <= n <= counts.len(),
        counts.len() == biomes.len(),
    ensures
        rank_sum(counts, biomes, 6, n) == sum(counts.take(n)),
    decreases n,
{
    reveal_with_fuel(rank_sum, 7);
    if n > 0 {
        lemma_ranks_cover_cells(counts, biomes, n - 1);
        assert(counts.take(n).drop_last() =~= counts.take(n - 1));
        assert(counts.take(n).last() == counts[n - 1]);
    } else {
        assert(counts.take(0).len() == 0);
    }
}

/// The per-biome table accounts for every organism of every cell: its
/// totals add up to the organisms of all cells.
pub proof fn lemma_biome_table_accounts_for_all(counts: Seq<usize>, biomes: Seq<BiomeType>)
    requires
        counts.len() == biomes.len(),
    ensures
        table_sum(biome_table(counts, biomes)) == sum(counts),
{
    lemma_rows_sum(counts, biomes, 6);
    lemma_ranks_cover_cells(counts, biomes, counts.len() as int);
    assert(counts.take(counts.len() as int) =~= counts);
}

/// The rows of the per-biome table are ordered by biome name, each biome at
/// most once.
pub proof fn lemma_biome_table_ordered(counts: Seq<usize>, biomes: Seq<BiomeType>, k: int)
    requires
        0 <= k <= 6,
    ensures
        forall|i: int, j: int|
            0 <= i < j < biome_rows(counts, biomes, k).len() ==> name_rank(
                #[trigger] biome_rows(counts, biomes, k)[i].0,
            ) < name_rank(#[trigger] biome_rows(counts, biomes, k)[j].0),
        forall|i: int|
            0 <= i < biome_rows(counts, biomes, k).len() ==> name_rank(
                #[trigger] biome_rows(counts, biomes, k)[i].0,
            ) < k,
    decreases k,
{
    if k > 0 {
        lemma_biome_table_ordered(counts, biomes, k - 1);
        let rows = biome_rows(counts, biomes, k - 1);
        let b = biome_of_rank(k - 1);
        crate::biome::lemma_rank_is_bijective(b, k - 1);
        if biomes.contains(b) {
            let t = biome_rows(counts, biomes, k);
            assert forall|i: int| 0 <= i < rows.len() implies t[i] == rows[i] by {}
        }
    }
}

} // verus!

verus! {

/// Positions `i` (in increasing order) at which `ids[i] == c`.
pub open spec fn members_of(ids: Seq<usize>, c: int) -> Seq<usize>
    decreases ids.len(),
{
    if ids.len() == 0 {
        Seq::empty()
    } else {
        let earlier = members_of(ids.drop_last(), c);
        if ids.last() == c {
            earlier.push((ids.len() - 1) as usize)
        } else {
            earlier
        }
    }
}

/// For each of `num_cells` cells, the positions of the organisms living
/// there, in increasing order.
pub fn group_by_cell(cell_ids: &Vec<usize>, num_cells: usize) -> (groups: Vec<Vec<usize>>)
    requires
        all_below(cell_ids@, num_cells as int),
    ensures
        groups.len() == num_cells,
        forall|c: int| 0 <= c < num_cells ==> (#[trigger] groups[c])@ == members_of(cell_ids@, c),
{
    let mut groups: Vec<Vec<usize>> = Vec::new();
    let mut c: usize = 0;
    while c < num_cells
        invariant
            c <= num_cells,
            groups.len() == c,
            forall|k: int| 0 <= k < c ==> (#[trigger] groups[k])@ == Seq::<usize>::empty(),
        decreases num_cells - c,
    {
        groups.push(Vec::new());
        c = c + 1;
    }
    let mut i: usize = 0;
    while i < cell_ids.len()
        invariant
            i <= cell_ids.len(),
            groups.len() == num_cells,
            all_below(cell_ids@, num_cells as int),
            forall|k: int|
                0 <= k < num_cells ==> (#[trigger] groups[k])@ == members_of(
                    cell_ids@.take(i as int),
                    k,
                ),
        decreases cell_ids.len() - i,
    {
        let cell = cell_ids[i];
        proof {
            assert(cell_ids@.take(i as int + 1).drop_last() =~= cell_ids@.take(i as int));
        }
        let mut members: Vec<usize> = Vec::new();
        std::mem::swap(&mut members, &mut groups[cell]);
        members.push(i);
        groups.set(cell, members);
        i = i + 1;
    }
    proof {
        assert(cell_ids@.take(cell_ids.len() as int) =~= cell_ids@);
    }
    groups
}

} // verus!

verus! {

/// The organisms listed for a cell are exactly those living in it, each
/// once, in increasing order.
pub proof fn lemma_members_exact(ids: Seq<usize>, c: int)
    requires
        ids.len() <= usize::MAX,
    ensures
        forall|j: int|
            0 <= j < members_of(ids, c).len() ==> #[trigger] members_of(ids, c)[j] < ids.len()
                && ids[members_of(ids, c)[j] as int] == c,
        forall|j: int, k: int|
            0 <= j < k < members_of(ids, c).len() ==> #[trigger] members_of(ids, c)[j]
                < #[trigger] members_of(ids, c)[k],
        forall|i: int| 0 <= i < ids.len() && ids[i] == c ==> members_of(ids, c).contains(i as usize),
    decreases ids.len(),
{
    if ids.len() > 0 {
        let p = ids.drop_last();
        lemma_members_exact(p, c);
        let m = members_of(ids, c);
        let mp = members_of(p, c);
        assert forall|j: int| 0 <= j < mp.len() implies m[j] == mp[j] by {}
        assert forall|i: int| 0 <= i < ids.len() && ids[i] == c implies m.contains(i as usize) by {
            if i < p.len() {
                assert(p[i] == ids[i]);
                let j = choose|j: int| 0 <= j < mp.len() && mp[j] == i as usize;
                assert(m[j] == i as usize);
            } else {
                assert(m[m.len() - 1] == i as usize);
            }
        }
        assert forall|j: int| 0 <= j < m.len() implies #[trigger] m[j] < ids.len() && ids[m[j] as int]
            == c by {
            if j < mp.len() {
                assert(ids[mp[j] as int] == p[mp[j] as int]);
            }
        }
    }
}

} // verus!
