use std::collections::HashSet;

use ternary_frontier::{
    Coord, DiscoveryLog, Explorer, Frontier, PioneerBonus, RegionStatus, RiskAssessment, RiskLevel,
    TerritoryMap, Ternary,
};

#[test]
fn test_ternary_from_i8() {
    assert_eq!(Ternary::from_i8(-1), Some(Ternary::Neg));
    assert_eq!(Ternary::from_i8(0), Some(Ternary::Zero));
    assert_eq!(Ternary::from_i8(1), Some(Ternary::Pos));
    assert_eq!(Ternary::from_i8(2), None);
    assert_eq!(Ternary::from_i8(-2), None);
}

#[test]
fn test_ternary_to_i8() {
    assert_eq!(Ternary::Neg.to_i8(), -1);
    assert_eq!(Ternary::Zero.to_i8(), 0);
    assert_eq!(Ternary::Pos.to_i8(), 1);
}

#[test]
fn test_coord_all_nine() {
    let all = Coord::all();
    assert_eq!(all.len(), 9);
    let unique: HashSet<_> = all.into_iter().collect();
    assert_eq!(unique.len(), 9);
}

#[test]
fn test_frontier_explore_one() {
    let mut f = Frontier::new();
    let center = Coord::new(Ternary::Zero, Ternary::Zero);
    f.explore(center);
    assert_eq!(f.known_count(), 1);
    assert!(f.frontier_count() > 0);
    assert_eq!(f.unknown_count(), 9 - 1 - f.frontier_count());
}

#[test]
fn test_frontier_starts_all_unknown() {
    let f = Frontier::new();
    assert_eq!(f.known_count(), 0);
    assert_eq!(f.frontier_count(), 0);
    assert_eq!(f.unknown_count(), 9);
    // Completeness is the known share of the nine coordinates.
    assert_eq!(f.known_count() as f64 / 9.0, 0.0);
}

#[test]
fn test_frontier_completeness_full() {
    let mut f = Frontier::new();
    for coord in Coord::all() {
        f.explore(coord);
    }
    assert_eq!(f.known_count(), 9);
    // Completeness is the known share of the nine coordinates.
    assert_eq!(f.known_count() as f64 / 9.0, 1.0);
}

#[test]
fn test_frontier_status() {
    let mut f = Frontier::new();
    let c = Coord::new(Ternary::Zero, Ternary::Zero);
    assert_eq!(f.status(c), RegionStatus::Unknown);
    f.explore(c);
    assert_eq!(f.status(c), RegionStatus::Known);
}

#[test]
fn test_frontier_reset() {
    let mut f = Frontier::new();
    f.explore(Coord::new(Ternary::Zero, Ternary::Zero));
    f.reset();
    assert_eq!(f.known_count(), 0);
    assert_eq!(f.unknown_count(), 9);
}

#[test]
fn test_discovery_log_record_and_count() {
    let mut log = DiscoveryLog::new();
    let c = Coord::new(Ternary::Pos, Ternary::Pos);
    log.record(c, Ternary::Pos, "alice", 100);
    assert_eq!(log.count(), 1);
    assert!(log.has_discovered(c));
}

#[test]
fn test_discovery_log_by_explorer() {
    let mut log = DiscoveryLog::new();
    log.record(Coord::new(Ternary::Neg, Ternary::Zero), Ternary::Neg, "alice", 1);
    log.record(Coord::new(Ternary::Pos, Ternary::Zero), Ternary::Pos, "bob", 2);
    log.record(Coord::new(Ternary::Zero, Ternary::Zero), Ternary::Zero, "alice", 3);
    assert_eq!(log.by_explorer("alice").len(), 2);
    assert_eq!(log.by_explorer("bob").len(), 1);
}

#[test]
fn test_discovery_log_latest() {
    let mut log = DiscoveryLog::new();
    assert!(log.latest().is_none());
    log.record(Coord::new(Ternary::Zero, Ternary::Zero), Ternary::Zero, "x", 1);
    log.record(Coord::new(Ternary::Pos, Ternary::Pos), Ternary::Pos, "x", 2);
    assert_eq!(log.latest().unwrap().timestamp, 2);
}

#[test]
fn test_risk_assessment_safe() {
    let ra = RiskAssessment::assess(5, 1, Ternary::Pos);
    assert_eq!(ra.risk, RiskLevel::Safe);
    assert_eq!(ra.score, 1);
}

#[test]
fn test_risk_assessment_dangerous() {
    let ra = RiskAssessment::assess(0, 5, Ternary::Neg);
    assert_eq!(ra.risk, RiskLevel::Dangerous);
    assert_eq!(ra.score, -1);
}

#[test]
fn test_risk_from_ternary_value() {
    assert_eq!(RiskAssessment::from_ternary_value(Ternary::Pos).risk, RiskLevel::Safe);
    assert_eq!(RiskAssessment::from_ternary_value(Ternary::Zero).risk, RiskLevel::Caution);
    assert_eq!(RiskAssessment::from_ternary_value(Ternary::Neg).risk, RiskLevel::Dangerous);
}

#[test]
fn test_explorer_move_and_energy() {
    let mut e = Explorer::new("scout");
    assert_eq!(e.energy, 10);
    assert!(e.move_to(Coord::new(Ternary::Zero, Ternary::Zero)));
    assert_eq!(e.energy, 9);
}

#[test]
fn test_explorer_exhausted() {
    let mut e = Explorer::new("scout");
    e.energy = 0;
    assert!(e.is_exhausted());
    assert!(!e.move_to(Coord::new(Ternary::Zero, Ternary::Zero)));
}

#[test]
fn test_explorer_discover() {
    let mut e = Explorer::new("scout");
    let mut log = DiscoveryLog::new();
    e.move_to(Coord::new(Ternary::Pos, Ternary::Neg));
    let coord = e.discover(Ternary::Pos, &mut log, 42);
    assert!(coord.is_some());
    assert_eq!(e.discoveries, 1);
    assert_eq!(log.count(), 1);
}

#[test]
fn test_explorer_recharge() {
    let mut e = Explorer::new("scout");
    e.energy = 0;
    e.recharge(5);
    assert_eq!(e.energy, 5);
}

#[test]
fn test_pioneer_bonus_first_wins() {
    let mut pb = PioneerBonus::new();
    let c = Coord::new(Ternary::Zero, Ternary::Zero);
    assert!(pb.record(c, "alice"));
    assert!(!pb.record(c, "bob"));
    assert_eq!(pb.bonus("alice"), 1);
    assert_eq!(pb.bonus("bob"), 0);
}

#[test]
fn test_pioneer_bonus_discoverer_of() {
    let mut pb = PioneerBonus::new();
    let c = Coord::new(Ternary::Pos, Ternary::Pos);
    pb.record(c, "alice");
    assert_eq!(pb.discoverer_of(c), Some("alice"));
    let other = Coord::new(Ternary::Neg, Ternary::Neg);
    assert_eq!(pb.discoverer_of(other), None);
}

#[test]
fn test_territory_claim_and_owner() {
    let mut tm = TerritoryMap::new();
    let c = Coord::new(Ternary::Zero, Ternary::Zero);
    assert!(tm.claim(c, "alice"));
    assert_eq!(tm.owner(c), Some("alice"));
    assert!(!tm.claim(c, "bob")); // already claimed
    assert!(tm.claim(c, "alice")); // own claim is ok
}

#[test]
fn test_territory_release() {
    let mut tm = TerritoryMap::new();
    let c = Coord::new(Ternary::Zero, Ternary::Zero);
    tm.claim(c, "alice");
    assert!(tm.release(c, "alice"));
    assert_eq!(tm.owner(c), None);
}

#[test]
fn test_territory_unclaimed() {
    let mut tm = TerritoryMap::new();
    assert_eq!(tm.unclaimed().len(), 9);
    tm.claim(Coord::new(Ternary::Zero, Ternary::Zero), "x");
    assert_eq!(tm.unclaimed().len(), 8);
}

#[test]
fn test_territory_owned_by() {
    let mut tm = TerritoryMap::new();
    tm.claim(Coord::new(Ternary::Zero, Ternary::Zero), "alice");
    tm.claim(Coord::new(Ternary::Pos, Ternary::Pos), "alice");
    tm.claim(Coord::new(Ternary::Neg, Ternary::Neg), "bob");
    assert_eq!(tm.owned_by("alice"), 2);
    assert_eq!(tm.owned_by("bob"), 1);
}
