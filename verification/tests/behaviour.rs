use ternary_frontier::{
    Coord, DiscoveryLog, Explorer, Frontier, PioneerBonus, RegionStatus, RiskAssessment, RiskLevel,
    TerritoryMap, Ternary,
};

fn c(x: Ternary, y: Ternary) -> Coord {
    Coord::new(x, y)
}

const N: Ternary = Ternary::Neg;
const Z: Ternary = Ternary::Zero;
const P: Ternary = Ternary::Pos;

#[test]
fn ternary_round_trip() {
    for t in [N, Z, P] {
        assert_eq!(Ternary::from_i8(t.to_i8()), Some(t));
    }
    assert_eq!(Ternary::from_i8(i8::MAX), None);
    assert_eq!(Ternary::from_i8(i8::MIN), None);
}

#[test]
fn coord_all_order() {
    let all = Coord::all();
    assert_eq!(
        all,
        vec![c(N, N), c(N, Z), c(N, P), c(Z, N), c(Z, Z), c(Z, P), c(P, N), c(P, Z), c(P, P)]
    );
}

#[test]
fn frontier_new_is_all_unknown() {
    let f = Frontier::new();
    assert_eq!(f.known_count(), 0);
    assert_eq!(f.frontier_count(), 0);
    assert_eq!(f.unknown_count(), 9);
    for coord in Coord::all() {
        assert_eq!(f.status(coord), RegionStatus::Unknown);
    }
    let d = Frontier::default();
    assert_eq!(d.unknown_count(), 9);
}

#[test]
fn frontier_center_neighbors_are_adjacent() {
    let mut f = Frontier::new();
    f.explore(c(Z, Z));
    assert_eq!(f.frontier_coords(), vec![c(N, Z), c(Z, N), c(Z, P), c(P, Z)]);
    assert_eq!(f.known_coords(), vec![c(Z, Z)]);
    assert_eq!(f.status(c(P, P)), RegionStatus::Unknown);
    assert_eq!(f.frontier_count(), 4);
    assert_eq!(f.unknown_count(), 4);
}

#[test]
fn frontier_corner_neighbors_wrap() {
    let mut f = Frontier::new();
    f.explore(c(N, N));
    // A step back from Neg wraps to Pos along each axis.
    assert_eq!(f.frontier_coords(), vec![c(N, Z), c(N, P), c(Z, N), c(P, N)]);
    assert_eq!(f.status(c(Z, Z)), RegionStatus::Unknown);
}

#[test]
fn frontier_explore_frontier_coord() {
    let mut f = Frontier::new();
    f.explore(c(Z, Z));
    f.explore(c(P, Z));
    assert_eq!(f.known_coords(), vec![c(Z, Z), c(P, Z)]);
    // Neighbors of (P, Z): (Z, Z) known, (P, N), (P, P) new, (N, Z) already frontier.
    assert_eq!(f.frontier_coords(), vec![c(N, Z), c(Z, N), c(Z, P), c(P, N), c(P, P)]);
    assert_eq!(f.known_count() + f.frontier_count() + f.unknown_count(), 9);
}

#[test]
fn frontier_explore_is_idempotent() {
    let mut f = Frontier::new();
    f.explore(c(Z, Z));
    let before = f.frontier_coords();
    f.explore(c(Z, Z));
    assert_eq!(f.known_count(), 1);
    assert_eq!(f.frontier_coords(), before);
}

#[test]
fn frontier_explore_all() {
    let mut f = Frontier::new();
    for coord in Coord::all() {
        f.explore(coord);
        assert_eq!(f.known_count() + f.frontier_count() + f.unknown_count(), 9);
    }
    assert_eq!(f.known_count(), 9);
    assert_eq!(f.frontier_count(), 0);
    assert_eq!(f.unknown_count(), 0);
    f.reset();
    assert_eq!(f.frontier_count(), 0);
    assert_eq!(f.status(c(P, P)), RegionStatus::Unknown);
}

#[test]
fn frontier_clone_keeps_status() {
    let mut f = Frontier::new();
    f.explore(c(P, P));
    let g = f.clone();
    assert_eq!(g.known_coords(), vec![c(P, P)]);
}

#[test]
fn discovery_log_keeps_order_and_fields() {
    let mut log = DiscoveryLog::default();
    assert_eq!(log.count(), 0);
    log.record(c(N, P), Ternary::Neg, "alice", 7);
    log.record(c(P, N), Ternary::Pos, "bob", 9);
    let entries = log.entries();
    assert_eq!(entries.len(), 2);
    assert_eq!(entries[0].coord, c(N, P));
    assert_eq!(entries[0].value, Ternary::Neg);
    assert_eq!(entries[0].discoverer, "alice");
    assert_eq!(entries[0].timestamp, 7);
    assert_eq!(entries[1].discoverer, "bob");
    let latest = log.latest().unwrap();
    assert_eq!(latest.coord, c(P, N));
    assert!(log.has_discovered(c(N, P)));
    assert!(!log.has_discovered(c(Z, Z)));
}

#[test]
fn discovery_log_by_explorer_order() {
    let mut log = DiscoveryLog::new();
    log.record(c(N, N), Ternary::Neg, "alice", 1);
    log.record(c(Z, N), Ternary::Zero, "bob", 2);
    log.record(c(P, N), Ternary::Pos, "alice", 3);
    let mine = log.by_explorer("alice");
    assert_eq!(mine.len(), 2);
    assert_eq!(mine[0].timestamp, 1);
    assert_eq!(mine[1].timestamp, 3);
    assert_eq!(log.by_explorer("carol").len(), 0);
    assert_eq!(log.by_explorer("ali").len(), 0);
}

#[test]
fn risk_thresholds() {
    assert_eq!(RiskAssessment::assess(4, 9, Ternary::Neg).score, 1);
    assert_eq!(RiskAssessment::assess(3, 2, Ternary::Zero).score, 0);
    assert_eq!(RiskAssessment::assess(2, 2, Ternary::Zero).risk, RiskLevel::Caution);
    assert_eq!(RiskAssessment::assess(2, 3, Ternary::Zero).score, -1);
    assert_eq!(RiskAssessment::assess(1, 0, Ternary::Pos).risk, RiskLevel::Dangerous);
}

#[test]
fn risk_reasons() {
    assert_eq!(
        RiskAssessment::assess(5, 1, Ternary::Pos).reason,
        "5 known neighbors, well-charted territory"
    );
    assert_eq!(
        RiskAssessment::assess(12, 0, Ternary::Pos).reason,
        "12 known neighbors, well-charted territory"
    );
    assert_eq!(RiskAssessment::assess(3, 2, Ternary::Zero).reason, "Mixed region: 3 known, 2 unknown");
    assert_eq!(
        RiskAssessment::assess(0, 105, Ternary::Neg).reason,
        "Only 0 known neighbors, high uncertainty"
    );
    assert_eq!(
        RiskAssessment::assess(2, 1, Ternary::Neg).reason,
        "Mixed region: 2 known, 1 unknown"
    );
    assert_eq!(
        RiskAssessment::assess(usize::MAX, 0, Ternary::Neg).reason,
        format!("{} known neighbors, well-charted territory", usize::MAX)
    );
}

#[test]
fn risk_from_value_scores_and_reasons() {
    let pos = RiskAssessment::from_ternary_value(Ternary::Pos);
    assert_eq!(pos.score, 1);
    assert_eq!(pos.reason, "Positive signal indicates safe territory");
    let zero = RiskAssessment::from_ternary_value(Ternary::Zero);
    assert_eq!(zero.score, 0);
    assert_eq!(zero.reason, "Neutral signal, uncertain terrain");
    let neg = RiskAssessment::from_ternary_value(Ternary::Neg);
    assert_eq!(neg.score, -1);
    assert_eq!(neg.reason, "Negative signal indicates hostile territory");
}

#[test]
fn risk_more_known_never_riskier() {
    for u in 0..6usize {
        for k in 0..6usize {
            let a = RiskAssessment::assess(k, u, Ternary::Zero).score;
            let b = RiskAssessment::assess(k + 1, u, Ternary::Zero).score;
            let d = RiskAssessment::assess(k, u + 1, Ternary::Zero).score;
            assert!(a <= b);
            assert!(d <= a);
        }
    }
}

#[test]
fn explorer_energy_runs_out() {
    let mut e = Explorer::new("scout");
    assert_eq!(e.name, "scout");
    assert_eq!(e.position, None);
    for _ in 0..10 {
        assert!(e.move_to(c(Z, Z)));
    }
    assert!(e.is_exhausted());
    assert!(!e.move_to(c(P, P)));
    assert_eq!(e.position, Some(c(Z, Z)));
    e.recharge(2);
    assert!(e.move_to(c(P, P)));
    assert_eq!(e.energy, 1);
    assert_eq!(e.position, Some(c(P, P)));
}

#[test]
fn explorer_discover_without_position() {
    let mut e = Explorer::new("scout");
    let mut log = DiscoveryLog::new();
    assert_eq!(e.discover(Ternary::Pos, &mut log, 1), None);
    assert_eq!(e.discoveries, 0);
    assert_eq!(log.count(), 0);
}

#[test]
fn explorer_discover_records_name_and_place() {
    let mut e = Explorer::new("scout");
    let mut log = DiscoveryLog::new();
    e.move_to(c(N, P));
    assert_eq!(e.discover(Ternary::Zero, &mut log, 5), Some(c(N, P)));
    let d = log.latest().unwrap();
    assert_eq!(d.discoverer, "scout");
    assert_eq!(d.coord, c(N, P));
    assert_eq!(d.value, Ternary::Zero);
    assert_eq!(d.timestamp, 5);
}

#[test]
fn pioneer_bonus_counts() {
    let mut pb = PioneerBonus::default();
    assert_eq!(pb.total_pioneered(), 0);
    assert!(pb.record(c(Z, Z), "alice"));
    assert!(pb.record(c(P, Z), "alice"));
    assert!(pb.record(c(N, Z), "bob"));
    assert!(!pb.record(c(P, Z), "bob"));
    assert!(!pb.record(c(Z, Z), "alice"));
    assert_eq!(pb.bonus("alice"), 2);
    assert_eq!(pb.bonus("bob"), 1);
    assert_eq!(pb.bonus("carol"), 0);
    assert_eq!(pb.total_pioneered(), 3);
    assert_eq!(pb.discoverer_of(c(P, Z)), Some("alice"));
    assert_eq!(pb.discoverer_of(c(N, Z)), Some("bob"));
}

#[test]
fn pioneer_bonus_every_region() {
    let mut pb = PioneerBonus::new();
    for coord in Coord::all() {
        assert!(pb.record(coord, "solo"));
    }
    assert_eq!(pb.bonus("solo"), 9);
    assert_eq!(pb.total_pioneered(), 9);
}

#[test]
fn territory_release_by_other_fails() {
    let mut tm = TerritoryMap::default();
    let x = c(P, N);
    assert!(tm.claim(x, "alice"));
    assert!(!tm.release(x, "bob"));
    assert_eq!(tm.owner(x), Some("alice"));
    assert!(!tm.release(c(Z, Z), "alice"));
    assert!(tm.release(x, "alice"));
    assert!(tm.claim(x, "bob"));
    assert_eq!(tm.owner(x), Some("bob"));
}

#[test]
fn territory_totals() {
    let mut tm = TerritoryMap::new();
    assert_eq!(tm.total_claimed(), 0);
    tm.claim(c(N, N), "a");
    tm.claim(c(Z, P), "b");
    tm.claim(c(Z, P), "a");
    assert_eq!(tm.total_claimed(), 2);
    assert_eq!(tm.total_claimed() + tm.unclaimed().len(), 9);
    assert_eq!(
        tm.unclaimed(),
        vec![c(N, Z), c(N, P), c(Z, N), c(Z, Z), c(P, N), c(P, Z), c(P, P)]
    );
    assert_eq!(tm.owned_by("a"), 1);
    assert_eq!(tm.owned_by("b"), 1);
    assert_eq!(tm.owned_by("c"), 0);
}

fn adjacent(a: Coord, b: Coord) -> bool {
    (a.x == b.x) != (a.y == b.y)
}

#[test]
fn frontier_is_boundary_of_known() {
    let mut f = Frontier::new();
    for coord in [c(N, N), c(Z, P), c(P, P), c(Z, P)] {
        f.explore(coord);
        let known = f.known_coords();
        for d in Coord::all() {
            let next_to_known = known.iter().any(|k| adjacent(*k, d));
            let expected = if known.contains(&d) {
                RegionStatus::Known
            } else if next_to_known {
                RegionStatus::Frontier
            } else {
                RegionStatus::Unknown
            };
            assert_eq!(f.status(d), expected);
        }
    }
}

#[test]
fn pioneer_bonus_clone_keeps_records() {
    let mut pb = PioneerBonus::new();
    pb.record(c(Z, Z), "alice");
    pb.record(c(P, P), "bob");
    let copy = pb.clone();
    assert_eq!(copy.bonus("alice"), 1);
    assert_eq!(copy.bonus("bob"), 1);
    assert_eq!(copy.discoverer_of(c(P, P)), Some("bob"));
    assert_eq!(copy.total_pioneered(), 2);
}

#[test]
fn territory_clone_keeps_claims() {
    let mut tm = TerritoryMap::new();
    tm.claim(c(N, Z), "alice");
    let copy = tm.clone();
    assert_eq!(copy.owner(c(N, Z)), Some("alice"));
    assert_eq!(copy.total_claimed(), 1);
}

#[test]
fn pioneer_bonuses_sum_to_total() {
    let mut pb = PioneerBonus::new();
    let names = ["alice", "bob", "carol"];
    for (i, coord) in Coord::all().into_iter().enumerate() {
        pb.record(coord, names[i % 3]);
        pb.record(coord, names[(i + 1) % 3]);
        let sum: u32 = names.iter().map(|n| pb.bonus(n)).sum();
        assert_eq!(sum as usize, pb.total_pioneered());
    }
    assert_eq!(pb.total_pioneered(), 9);
    assert_eq!(pb.bonus("alice"), 3);
}
