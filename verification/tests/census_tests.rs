use primordial::biome::BiomeType;
use primordial::census::{biome_populations, group_by_cell, tally_cells};

#[test]
fn tally_counts_each_cell() {
    let cells = vec![0, 2, 2, 1, 2, 0];
    assert_eq!(tally_cells(&cells, 4), vec![2, 1, 3, 0]);
    assert_eq!(tally_cells(&vec![], 2), vec![0, 0]);
}

#[test]
fn biome_populations_sum_to_total_of_cells() {
    let cells = vec![0, 1, 1, 2, 3, 3, 3, 0, 2];
    let counts = tally_cells(&cells, 4);
    let biomes = vec![BiomeType::Tundra, BiomeType::Desert, BiomeType::Tundra, BiomeType::Ice];
    let table = biome_populations(&counts, &biomes);
    let sum: usize = table.iter().map(|(_, c)| c).sum();
    assert_eq!(sum, cells.len());
}

#[test]
fn biome_table_sorted_by_name_with_present_biomes_only() {
    let counts = vec![5, 0, 2, 7];
    let biomes = vec![BiomeType::Tundra, BiomeType::Ice, BiomeType::Desert, BiomeType::Tundra];
    let table = biome_populations(&counts, &biomes);
    assert_eq!(
        table,
        vec![
            ("desert".to_string(), 2),
            ("ice".to_string(), 0),
            ("tundra".to_string(), 12),
        ]
    );
}

#[test]
fn groups_list_members_in_order() {
    let cells = vec![1, 0, 1, 1, 2];
    let groups = group_by_cell(&cells, 4);
    assert_eq!(groups, vec![vec![1], vec![0, 2, 3], vec![4], vec![]]);
}
