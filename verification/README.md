# ternary_frontier

Exploration of the 3×3 balanced-ternary state space, verified with Verus.

- `src/grid.rs` — `Ternary`, `Coord`, the numbering of the nine cells, and the
  counting lemmas that relate sets of coordinates to counts over cells.
- `src/frontier.rs` — `Frontier`: known, frontier and unknown coordinates. The
  frontier is always the set of unexplored coordinates adjacent (on the wrapping
  grid) to explored ones.
- `src/discovery.rs` — `DiscoveryLog`, an append-only record of discoveries.
- `src/explorer.rs` — `Explorer`, an agent with energy that moves and discovers.
- `src/risk.rs` — `RiskAssessment` with its score and its explanation text.
- `src/pioneer.rs` — `PioneerBonus`, first-discoverer-wins bonuses.
- `src/territory.rs` — `TerritoryMap`, exclusive claims on coordinates.
- `app/lib.rs` — the exploration ratio as a floating-point number.
