//! Biome labels. A biome is derived from climate; it labels a cell and does
//! not constrain what lives there.
use vstd::prelude::*;

verus! {

/// Biome classification — a label derived from climate, not a constraint.
#[derive(Debug, Clone, Copy, PartialEq, Eq, Hash, Structural)]
pub enum BiomeType {
    Tropical,
    Desert,
    TemperateForest,
    Grassland,
    Tundra,
    Ice,
}

/// The name a biome is reported under.
pub open spec fn biome_name(b: BiomeType) -> Seq<char> {
    match b {
        BiomeType::Tropical => "tropical"@,
        BiomeType::Desert => "desert"@,
        BiomeType::TemperateForest => "temperate_forest"@,
        BiomeType::Grassland => "grassland"@,
        BiomeType::Tundra => "tundra"@,
        BiomeType::Ice => "ice"@,
    }
}

/// Position of a biome's name in alphabetical order.
pub open spec fn name_rank(b: BiomeType) -> int {
    match b {
        BiomeType::Desert => 0,
        BiomeType::Grassland => 1,
        BiomeType::Ice => 2,
        BiomeType::TemperateForest => 3,
        BiomeType::Tropical => 4,
        BiomeType::Tundra => 5,
    }
}

/// The biome whose name has alphabetical position `r` (0 to 5).
pub open spec fn biome_of_rank(r: int) -> BiomeType {
    if r == 0 {
        BiomeType::Desert
    } else if r == 1 {
        BiomeType::Grassland
    } else if r == 2 {
        BiomeType::Ice
    } else if r == 3 {
        BiomeType::TemperateForest
    } else if r == 4 {
        BiomeType::Tropical
    } else {
        BiomeType::Tundra
    }
}

impl BiomeType {
    pub fn name(&self) -> (s: &'static str)
        ensures
            s@ == biome_name(*self),
    {
        match self {
            BiomeType::Tropical => "tropical",
            BiomeType::Desert => "desert",
            BiomeType::TemperateForest => "temperate_forest",
            BiomeType::Grassland => "grassland",
            BiomeType::Tundra => "tundra",
            BiomeType::Ice => "ice",
        }
    }
}

/// Every biome has one alphabetical position, and the positions cover 0..6.
pub proof fn lemma_rank_is_bijective(b: BiomeType, r: int)
    ensures
        0 <= name_rank(b) < 6,
        biome_of_rank(name_rank(b)) == b,
        0 <= r < 6 ==> name_rank(biome_of_rank(r)) == r,
{
}

} // verus!

verus! {

/// Lexicographic order on character strings (the order `String` compares by,
/// for the ASCII names used here).
pub open spec fn lex_less(a: Seq<char>, b: Seq<char>) -> bool
    decreases a.len(),
{
    if a.len() == 0 {
        b.len() > 0
    } else if b.len() == 0 {
        false
    } else if a[0] != b[0] {
        (a[0] as u32) < (b[0] as u32)
    } else {
        lex_less(a.skip(1), b.skip(1))
    }
}

/// Alphabetical position agrees with the order of the names themselves.
pub proof fn lemma_rank_follows_name_order(a: BiomeType, b: BiomeType)
    ensures
        name_rank(a) < name_rank(b) <==> lex_less(biome_name(a), biome_name(b)),
{
    reveal_strlit("tropical");
    reveal_strlit("desert");
    reveal_strlit("temperate_forest");
    reveal_strlit("grassland");
    reveal_strlit("tundra");
    reveal_strlit("ice");
    if a == b {
        lemma_lex_irreflexive(biome_name(a));
    } else {
        let x = biome_name(a);
        let y = biome_name(b);
        reveal_with_fuel(lex_less, 2);
        assert(x.len() > 1 && y.len() > 1);
        assert(x.skip(1)[0] == x[1] && y.skip(1)[0] == y[1]);
        assert(x.skip(1).len() > 0 && y.skip(1).len() > 0);
        if x[0] == y[0] {
            assert(x[1] != y[1]);
            assert(lex_less(x, y) == lex_less(x.skip(1), y.skip(1)));
            assert(lex_less(x.skip(1), y.skip(1)) == ((x[1] as u32) < (y[1] as u32)));
        } else {
            assert(lex_less(x, y) == ((x[0] as u32) < (y[0] as u32)));
        }
    }
}

proof fn lemma_lex_irreflexive(s: Seq<char>)
    ensures
        !lex_less(s, s),
    decreases s.len(),
{
    if s.len() > 0 {
        lemma_lex_irreflexive(s.skip(1));
    }
}

} // verus!
