# primordial

A compressed evolutionary simulation: a star and planet set a climate grid,
biomes label its cells, and a population of 64-bit genomes competes,
reproduces, mutates and dies while a lineage tracker writes the
phylogenetic record.

- `src/` is the verified library (Verus): genomes and their Hamming metric,
  crossover and mutation, lineage bookkeeping, biome names, the grid's
  neighbourhood structure, census tables, the integer side of founding
  and breeding, removing organisms (culling and the population cap) with
  their deaths recorded, and the per-tick run plan. Random draws come from `rand`/`rand_chacha` through a few
  trusted wrappers in `src/rng.rs`.
- `app/` is the command-line program: configuration parsing, the
  real-valued climate, energy and resource model, SQLite run storage and
  log output.
