//! How risky it is to push the frontier into a region.

use vstd::prelude::*;
use vstd::string::*;

use crate::grid::{ternary_value, Ternary};

verus! {

/// Ternary risk assessment for frontier expansion.
#[derive(Debug, Clone, Copy, PartialEq, Eq, Structural)]
pub enum RiskLevel {
    Safe,
    Caution,
    Dangerous,
}

/// Risk assessment result with reasoning.
#[derive(Debug, Clone)]
pub struct RiskAssessment {
    pub risk: RiskLevel,
    /// -1 (dangerous), 0 (caution), +1 (safe)
    pub score: i8,
    pub reason: String,
}

/// The score of a region from its known and unknown neighbors: safe with at least
/// four known neighbors, cautious with at least two known and at most two unknown,
/// dangerous otherwise.
pub open spec fn risk_score(known_neighbors: int, unknown_neighbors: int) -> int {
    if known_neighbors >= 4 {
        1
    } else if known_neighbors >= 2 && unknown_neighbors <= 2 {
        0
    } else {
        -1
    }
}

/// The risk level that a score stands for.
pub open spec fn risk_of_score(score: int) -> RiskLevel {
    if score == 1 {
        RiskLevel::Safe
    } else if score == 0 {
        RiskLevel::Caution
    } else {
        RiskLevel::Dangerous
    }
}

/// The decimal digit `d` as a character.
pub open spec fn digit_char(d: nat) -> char {
    if d == 0 {
        '0'
    } else if d == 1 {
        '1'
    } else if d == 2 {
        '2'
    } else if d == 3 {
        '3'
    } else if d == 4 {
        '4'
    } else if d == 5 {
        '5'
    } else if d == 6 {
        '6'
    } else if d == 7 {
        '7'
    } else if d == 8 {
        '8'
    } else {
        '9'
    }
}

/// The decimal notation of `n`, without leading zeros.
pub open spec fn decimal(n: nat) -> Seq<char>
    decreases n,
{
    if n < 10 {
        seq![digit_char(n)]
    } else {
        decimal(n / 10) + seq![digit_char(n % 10)]
    }
}

/// The explanation given with an assessment.
pub open spec fn reason_text(risk: RiskLevel, known_neighbors: nat, unknown_neighbors: nat) -> Seq<
    char,
> {
    match risk {
        RiskLevel::Safe => decimal(known_neighbors) + " known neighbors, well-charted territory"@,
        RiskLevel::Caution => "Mixed region: "@ + decimal(known_neighbors) + " known, "@ + decimal(
            unknown_neighbors,
        ) + " unknown"@,
        RiskLevel::Dangerous => "Only "@ + decimal(known_neighbors)
            + " known neighbors, high uncertainty"@,
    }
}

/// The decimal digit `d` as a one-character string.
fn digit_str(d: usize) -> (r: &'static str)
    requires
        d < 10,
    ensures
        r@ == seq![digit_char(d as nat)],
{
    let s = match d {
        0 => "0",
        1 => "1",
        2 => "2",
        3 => "3",
        4 => "4",
        5 => "5",
        6 => "6",
        7 => "7",
        8 => "8",
        _ => "9",
    };
    proof {
        reveal_strlit("0");
        reveal_strlit("1");
        reveal_strlit("2");
        reveal_strlit("3");
        reveal_strlit("4");
        reveal_strlit("5");
        reveal_strlit("6");
        reveal_strlit("7");
        reveal_strlit("8");
        reveal_strlit("9");
        assert(s@ =~= seq![digit_char(d as nat)]);
    }
    s
}

/// Append the decimal notation of `n`.
fn push_decimal(s: &mut String, n: usize)
    ensures
        final(s)@ == old(s)@ + decimal(n as nat),
    decreases n,
{
    if n >= 10 {
        push_decimal(s, n / 10);
    }
    s.append(digit_str(n % 10));
    assert(final(s)@ =~= old(s)@ + decimal(n as nat));
}

impl RiskAssessment {
    #[allow(unused_variables)]
    pub fn assess(known_neighbors: usize, unknown_neighbors: usize, value: Ternary) -> (r: Self)
        ensures
            r.score == risk_score(known_neighbors as int, unknown_neighbors as int),
            r.risk == risk_of_score(r.score as int),
            r.reason@ == reason_text(r.risk, known_neighbors as nat, unknown_neighbors as nat),
            (r.risk == RiskLevel::Safe) <==> known_neighbors >= 4,
            (r.risk == RiskLevel::Caution) <==> (2 <= known_neighbors < 4 && unknown_neighbors <= 2),
            (r.risk == RiskLevel::Dangerous) <==> (known_neighbors < 2 || (known_neighbors < 4
                && unknown_neighbors > 2)),
    {
        let score: i8 = if known_neighbors >= 4 {
            1
        } else if known_neighbors >= 2 && unknown_neighbors <= 2 {
            0
        } else {
            -1
        };

        let risk = match score {
            1 => RiskLevel::Safe,
            0 => RiskLevel::Caution,
            _ => RiskLevel::Dangerous,
        };

        let reason = match risk {
            RiskLevel::Safe => {
                let mut s = String::new();
                push_decimal(&mut s, known_neighbors);
                s.append(" known neighbors, well-charted territory");
                s
            },
            RiskLevel::Caution => {
                let mut s = String::from_str("Mixed region: ");
                push_decimal(&mut s, known_neighbors);
                s.append(" known, ");
                push_decimal(&mut s, unknown_neighbors);
                s.append(" unknown");
                s
            },
            RiskLevel::Dangerous => {
                let mut s = String::from_str("Only ");
                push_decimal(&mut s, known_neighbors);
                s.append(" known neighbors, high uncertainty");
                s
            },
        };
        assert(reason@ =~= reason_text(risk, known_neighbors as nat, unknown_neighbors as nat));

        RiskAssessment { risk, score, reason }
    }

    /// Combined risk from ternary value: positive is safer, negative is riskier.
    pub fn from_ternary_value(value: Ternary) -> (r: Self)
        ensures
            r.score == ternary_value(value),
            r.risk == risk_of_score(r.score as int),
            r.reason@ == match value {
                Ternary::Pos => "Positive signal indicates safe territory"@,
                Ternary::Zero => "Neutral signal, uncertain terrain"@,
                Ternary::Neg => "Negative signal indicates hostile territory"@,
            },
    {
        match value {
            Ternary::Pos => RiskAssessment {
                risk: RiskLevel::Safe,
                score: 1,
                reason: String::from_str("Positive signal indicates safe territory"),
            },
            Ternary::Zero => RiskAssessment {
                risk: RiskLevel::Caution,
                score: 0,
                reason: String::from_str("Neutral signal, uncertain terrain"),
            },
            Ternary::Neg => RiskAssessment {
                risk: RiskLevel::Dangerous,
                score: -1,
                reason: String::from_str("Negative signal indicates hostile territory"),
            },
        }
    }
}

/// A region is safe (+1) exactly when it has at least four known neighbors,
/// cautious (0) exactly when it has two or three known and at most two unknown
/// neighbors, and dangerous (-1) otherwise; each score stands for its own level,
/// and each level's explanation opens with its own words.
pub proof fn lemma_risk_thresholds(k: int, u: int)
    ensures
        risk_score(k, u) == 1 <==> k >= 4,
        risk_score(k, u) == 0 <==> (2 <= k < 4 && u <= 2),
        risk_score(k, u) == -1 <==> (k < 2 || (k < 4 && u > 2)),
        risk_of_score(1) == RiskLevel::Safe,
        risk_of_score(0) == RiskLevel::Caution,
        risk_of_score(-1) == RiskLevel::Dangerous,
        k >= 0 && u >= 0 ==> reason_text(RiskLevel::Caution, k as nat, u as nat).take(14)
            == "Mixed region: "@,
        k >= 0 && u >= 0 ==> reason_text(RiskLevel::Dangerous, k as nat, u as nat).take(5)
            == "Only "@,
        k >= 0 && u >= 0 ==> reason_text(RiskLevel::Safe, k as nat, u as nat) == decimal(k as nat)
            + " known neighbors, well-charted territory"@,
{
    reveal_strlit("Mixed region: ");
    reveal_strlit("Only ");
    let m = "Mixed region: "@;
    let o = "Only "@;
    if k >= 0 && u >= 0 {
        let rc = reason_text(RiskLevel::Caution, k as nat, u as nat);
        assert(rc == m + decimal(k as nat) + " known, "@ + decimal(u as nat) + " unknown"@);
        assert(rc.take(14) =~= m);
        let rd = reason_text(RiskLevel::Dangerous, k as nat, u as nat);
        assert(rd.take(5) =~= o);
    }
}

/// Scores are -1, 0 or +1, and more known neighbors or fewer unknown neighbors
/// never make a region riskier.
pub proof fn lemma_risk_monotone(k1: int, u1: int, k2: int, u2: int)
    ensures
        -1 <= risk_score(k1, u1) <= 1,
        k1 <= k2 && u2 <= u1 ==> risk_score(k1, u1) <= risk_score(k2, u2),
{
}

} // verus!
