use primordial::biome::BiomeType;
use primordial::grid::{cell_neighbors, grid_adjacency};

#[test]
fn adjacency_wraps_longitude() {
    let adjacency = grid_adjacency(4, 4);
    // Cell (0,0) should be adjacent to cell (3,0) via wrap
    let adj = &adjacency[0];
    assert!(adj.contains(&3), "cell 0 should be adjacent to cell 3 (wrap)");
}

#[test]
fn single_cell_has_no_neighbors() {
    let adjacency = grid_adjacency(1, 1);
    assert_eq!(adjacency.len(), 1);
    assert!(adjacency[0].is_empty());
}

#[test]
fn neighbor_order_is_west_east_north_south() {
    assert_eq!(cell_neighbors(4, 4, 1, 1), vec![4, 6, 1, 9]);
    assert_eq!(cell_neighbors(4, 4, 0, 0), vec![3, 1, 4]);
    assert_eq!(cell_neighbors(4, 4, 3, 3), vec![14, 12, 11]);
    assert_eq!(cell_neighbors(1, 3, 0, 1), vec![0, 2]);
    // Two columns: west and east are the same cell.
    assert_eq!(cell_neighbors(2, 1, 0, 0), vec![1, 1]);
}

#[test]
fn adjacency_is_symmetric_and_loop_free() {
    let (w, h) = (5, 3);
    let adjacency = grid_adjacency(w, h);
    assert_eq!(adjacency.len(), w * h);
    for i in 0..w * h {
        for &j in &adjacency[i] {
            assert!(j < w * h);
            assert_ne!(i, j);
            assert!(adjacency[j].contains(&i));
        }
    }
}

#[test]
fn biome_names() {
    assert_eq!(BiomeType::Tropical.name(), "tropical");
    assert_eq!(BiomeType::Desert.name(), "desert");
    assert_eq!(BiomeType::TemperateForest.name(), "temperate_forest");
    assert_eq!(BiomeType::Grassland.name(), "grassland");
    assert_eq!(BiomeType::Tundra.name(), "tundra");
    assert_eq!(BiomeType::Ice.name(), "ice");
}
