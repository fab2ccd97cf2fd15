use vstd::prelude::*;

use crate::state::Experience;
use vstd::arithmetic::div_mod::{lemma_div_multiples_vanish_fancy, lemma_fundamental_div_mod};

verus! {

/// The four progression tracks a developer can level, plus the
/// virtual `Total` pool that every gain is mirrored into.
#[derive(Clone, Copy, Debug, PartialEq, Eq, Structural)]
pub enum XpType {
    Total,
    Precision,
    Output,
    Pedantry,
    Knowledge,
}

/// Level, progress into that level, and the size of the step to the
/// next level, derived on demand from a cumulative XP value.
#[derive(Clone, Debug, PartialEq, Eq, Structural)]
pub struct LevelInfo {
    pub level: u64,
    pub current_level_progress: u128,
    pub xp_needed_to_level: u128,
}

/// The next threshold reported for a ledger that holds no XP at all.
/// This boundary is fixed by design rather than derived from the curve.
pub const LEVEL_ZERO_NEXT_THRESHOLD: u128 = 50;

/// Per-level XP requirement on the rising (logistic) part of the curve,
/// before the small linear bonus of two XP per level is added.
///
/// The curve is `round(1500 / (1 + e^(-0.10 * (level - 100))))`, tabulated
/// exactly for levels 1 through 100 so that the whole calculator stays in
/// integer arithmetic.
pub open spec fn logistic_base(level: int) -> int
    recommends
        1 <= level <= 100,
{
    if level <= 19 {
        0
    } else if level <= 30 {
        1
    } else if level <= 36 {
        2
    } else if level <= 39 {
        3
    } else if level <= 41 {
        4
    } else if level <= 43 {
        5
    } else if level <= 45 {
        6
    } else if level <= 47 {
        7
    } else if level <= 48 {
        8
    } else if level <= 49 {
        9
    } else if level <= 50 {
        10
    } else if level <= 51 {
        11
    } else if level <= 52 {
        12
    } else if level <= 53 {
        14
    } else if level <= 54 {
        15
    } else if level <= 55 {
        16
    } else if level <= 56 {
        18
    } else if level <= 57 {
        20
    } else if level <= 58 {
        22
    } else if level <= 59 {
        24
    } else if level <= 60 {
        27
    } else if level <= 61 {
        30
    } else if level <= 62 {
        33
    } else if level <= 63 {
        36
    } else if level <= 64 {
        40
    } else if level <= 65 {
        44
    } else if level <= 66 {
        48
    } else if level <= 67 {
        53
    } else if level <= 68 {
        59
    } else if level <= 69 {
        65
    } else if level <= 70 {
        71
    } else if level <= 71 {
        78
    } else if level <= 72 {
        86
    } else if level <= 73 {
        94
    } else if level <= 74 {
        104
    } else if level <= 75 {
        114
    } else if level <= 76 {
        125
    } else if level <= 77 {
        137
    } else if level <= 78 {
        150
    } else if level <= 79 {
        164
    } else if level <= 80 {
        179
    } else if level <= 81 {
        195
    } else if level <= 82 {
        213
    } else if level <= 83 {
        232
    } else if level <= 84 {
        252
    } else if level <= 85 {
        274
    } else if level <= 86 {
        297
    } else if level <= 87 {
        321
    } else if level <= 88 {
        347
    } else if level <= 89 {
        375
    } else if level <= 90 {
        403
    } else if level <= 91 {
        434
    } else if level <= 92 {
        465
    } else if level <= 93 {
        498
    } else if level <= 94 {
        532
    } else if level <= 95 {
        566
    } else if level <= 96 {
        602
    } else if level <= 97 {
        638
    } else if level <= 98 {
        675
    } else if level <= 99 {
        713
    } else {
        750
    }
}

/// Exact per-level XP requirement.
///
/// Levels up to the curve midpoint (100) follow the tabulated logistic
/// curve plus a linear bonus of two XP per level, which keeps the low
/// tail free of flat or duplicate thresholds. Levels past the midpoint
/// grow linearly with the curve's midpoint slope of 37.5 XP per level,
/// rounded half up.
pub open spec fn spec_xp_required(level: int) -> int {
    if level <= 0 {
        0
    } else if level <= 100 {
        logistic_base(level) + 2 * level
    } else {
        750 + (75 * (level - 100) + 1) / 2
    }
}

/// Cumulative XP needed to have reached `level`: the sum of the
/// per-level requirements for levels one through `level`.
pub open spec fn spec_cumulative_xp(level: int) -> int
    decreases level,
{
    if level <= 0 {
        0
    } else {
        spec_cumulative_xp(level - 1) + spec_xp_required(level)
    }
}

fn logistic_base_value(level: u64) -> (r: u128)
    requires
        1 <= level <= 100,
    ensures
        r as int == logistic_base(level as int),
{
    if level <= 19 {
        0
    } else if level <= 30 {
        1
    } else if level <= 36 {
        2
    } else if level <= 39 {
        3
    } else if level <= 41 {
        4
    } else if level <= 43 {
        5
    } else if level <= 45 {
        6
    } else if level <= 47 {
        7
    } else if level <= 48 {
        8
    } else if level <= 49 {
        9
    } else if level <= 50 {
        10
    } else if level <= 51 {
        11
    } else if level <= 52 {
        12
    } else if level <= 53 {
        14
    } else if level <= 54 {
        15
    } else if level <= 55 {
        16
    } else if level <= 56 {
        18
    } else if level <= 57 {
        20
    } else if level <= 58 {
        22
    } else if level <= 59 {
        24
    } else if level <= 60 {
        27
    } else if level <= 61 {
        30
    } else if level <= 62 {
        33
    } else if level <= 63 {
        36
    } else if level <= 64 {
        40
    } else if level <= 65 {
        44
    } else if level <= 66 {
        48
    } else if level <= 67 {
        53
    } else if level <= 68 {
        59
    } else if level <= 69 {
        65
    } else if level <= 70 {
        71
    } else if level <= 71 {
        78
    } else if level <= 72 {
        86
    } else if level <= 73 {
        94
    } else if level <= 74 {
        104
    } else if level <= 75 {
        114
    } else if level <= 76 {
        125
    } else if level <= 77 {
        137
    } else if level <= 78 {
        150
    } else if level <= 79 {
        164
    } else if level <= 80 {
        179
    } else if level <= 81 {
        195
    } else if level <= 82 {
        213
    } else if level <= 83 {
        232
    } else if level <= 84 {
        252
    } else if level <= 85 {
        274
    } else if level <= 86 {
        297
    } else if level <= 87 {
        321
    } else if level <= 88 {
        347
    } else if level <= 89 {
        375
    } else if level <= 90 {
        403
    } else if level <= 91 {
        434
    } else if level <= 92 {
        465
    } else if level <= 93 {
        498
    } else if level <= 94 {
        532
    } else if level <= 95 {
        566
    } else if level <= 96 {
        602
    } else if level <= 97 {
        638
    } else if level <= 98 {
        675
    } else if level <= 99 {
        713
    } else {
        750
    }
}

/// Every level past the zeroth costs something: the requirement is at
/// least two XP, and at least twice the level number.
pub proof fn lemma_req_lower(level: int)
    requires
        level >= 1,
    ensures
        spec_xp_required(level) >= 2 * level,
        spec_xp_required(level) >= 2,
{
    if level <= 100 {
        assert(logistic_base(level) >= 0);
    } else {
        let d: int = level - 100;
        assert((75 * d + 1) / 2 >= 37 * d) by (nonlinear_arith)
            requires d >= 1;
        assert(750 + 37 * d >= 2 * (100 + d)) by (nonlinear_arith)
            requires d >= 1;
    }
}

/// The requirement for a level that does not exist costs nothing.
pub proof fn lemma_req_nonneg(level: int)
    ensures
        spec_xp_required(level) >= 0,
{
    if level >= 1 {
        lemma_req_lower(level);
    }
}

/// Cumulative XP never decreases as the level rises.
pub proof fn lemma_cumulative_monotone(a: int, b: int)
    requires
        a <= b,
    ensures
        spec_cumulative_xp(a) <= spec_cumulative_xp(b),
    decreases b - a,
{
    if a < b {
        lemma_cumulative_monotone(a, b - 1);
        lemma_req_nonneg(b);
    }
}

/// Cumulative XP grows at least quadratically in the level.
pub proof fn lemma_cumulative_lower(level: int)
    requires
        level >= 0,
    ensures
        spec_cumulative_xp(level) >= level * (level + 1),
    decreases level,
{
    if level >= 1 {
        lemma_cumulative_lower(level - 1);
        lemma_req_lower(level);
        let c1: int = spec_cumulative_xp(level - 1);
        assert(spec_cumulative_xp(level) == c1 + spec_xp_required(level));
        assert(c1 + 2 * level >= level * (level + 1)) by (nonlinear_arith)
            requires c1 >= (level - 1) * level;
    } else {
        assert(level * (level + 1) == 0) by (nonlinear_arith)
            requires level == 0;
    }
}

/// Past the midpoint the cumulative requirement grows at least like
/// eighteen times the square of the distance from the midpoint.
pub proof fn lemma_cumulative_quadratic(level: int)
    requires
        level >= 100,
    ensures
        spec_cumulative_xp(level) >= 18 * (level - 100) * (level - 100),
    decreases level,
{
    if level == 100 {
        lemma_cumulative_monotone(0, 100);
    } else {
        lemma_cumulative_quadratic(level - 1);
        let d: int = level - 100;
        assert(spec_xp_required(level) == 750 + (75 * d + 1) / 2);
        assert((75 * d + 1) / 2 >= 37 * d) by (nonlinear_arith)
            requires d >= 1;
        assert(18 * (d - 1) * (d - 1) + 750 + 37 * d >= 18 * d * d) by (nonlinear_arith)
            requires d >= 1;
    }
}

/// `level` is the level a pool of `xp` experience has reached: the
/// cumulative requirement through `level` is met, the one through the
/// next level is not.
pub open spec fn is_level_for(xp: int, level: int) -> bool {
    &&& 0 <= level
    &&& spec_cumulative_xp(level) <= xp
    &&& xp < spec_cumulative_xp(level + 1)
}

/// The level reached by a pool of `xp` experience.
pub open spec fn spec_level_of(xp: int) -> int {
    choose|level: int| is_level_for(xp, level)
}

proof fn lemma_find_level(xp: int, l: int)
    requires
        0 <= l,
        spec_cumulative_xp(l) <= xp,
    ensures
        exists|level: int| is_level_for(xp, level),
    decreases xp - l,
{
    if xp < spec_cumulative_xp(l + 1) {
        assert(is_level_for(xp, l));
    } else {
        lemma_cumulative_lower(l + 1);
        assert((l + 1) * (l + 2) >= l + 1) by (nonlinear_arith)
            requires l >= 0;
        lemma_find_level(xp, l + 1);
    }
}

/// Every non-negative XP value has a level, and `spec_level_of` names it.
pub proof fn lemma_level_exists(xp: int)
    requires
        xp >= 0,
    ensures
        is_level_for(xp, spec_level_of(xp)),
{
    lemma_find_level(xp, 0);
}

/// No XP value has two levels.
pub proof fn lemma_level_unique(xp: int, l1: int, l2: int)
    requires
        is_level_for(xp, l1),
        is_level_for(xp, l2),
    ensures
        l1 == l2,
{
    if l1 < l2 {
        lemma_cumulative_monotone(l1 + 1, l2);
    }
    if l2 < l1 {
        lemma_cumulative_monotone(l2 + 1, l1);
    }
}

/// A level reachable with XP that fits the ledger's pools lies far
/// below the range where the level arithmetic itself could overflow.
pub proof fn lemma_level_bound(xp: int, level: int)
    requires
        is_level_for(xp, level),
        xp <= u128::MAX,
    ensures
        level < 0x4000000000000064,
{
    if level >= 0x4000000000000064 {
        lemma_cumulative_quadratic(level);
        assert(18 * (level - 100) * (level - 100) > u128::MAX) by (nonlinear_arith)
            requires level >= 0x4000000000000064;
    }
}

/// Levels never fall as XP grows: a pool with more experience is at
/// least as far along the curve as a pool with less.
pub proof fn lemma_level_monotone(xp1: int, xp2: int)
    requires
        0 <= xp1 <= xp2,
    ensures
        spec_level_of(xp1) <= spec_level_of(xp2),
{
    lemma_level_exists(xp1);
    lemma_level_exists(xp2);
    let l1: int = spec_level_of(xp1);
    let l2: int = spec_level_of(xp2);
    if l1 > l2 {
        lemma_cumulative_monotone(l2 + 1, l1);
    }
}

/// XP required to go from `level - 1` to `level`. All stats share one
/// curve; the stat parameter selects the curve and is kept so that the
/// shapes can be tuned per stat.
pub fn xp_required_for_level(level: u64, xp_type: XpType) -> (r: u128)
    ensures
        r as int == spec_xp_required(level as int),
{
    if level == 0 {
        0
    } else if level <= 100 {
        logistic_base_value(level) + 2 * (level as u128)
    } else {
        let d: u128 = (level - 100) as u128;
        750 + (75 * d + 1) / 2
    }
}

/// Cumulative XP is never negative.
pub proof fn lemma_cumulative_nonneg(level: int)
    ensures
        spec_cumulative_xp(level) >= 0,
    decreases level,
{
    if level > 0 {
        lemma_cumulative_nonneg(level - 1);
        lemma_req_nonneg(level);
    }
}

/// Total XP required to have reached `level`: the cumulative sum of the
/// per-level requirements. The requirement bound is a machine limit:
/// the sum must fit the ledger's pool width.
pub fn total_xp_for_level(level: u64, xp_type: XpType) -> (r: u128)
    requires
        spec_cumulative_xp(level as int) <= u128::MAX,
    ensures
        r as int == spec_cumulative_xp(level as int),
{
    let mut i: u64 = 0;
    let mut cum: u128 = 0;
    while i < level
        invariant
            i <= level,
            cum as int == spec_cumulative_xp(i as int),
            spec_cumulative_xp(level as int) <= u128::MAX,
        decreases level - i,
    {
        let req = xp_required_for_level(i + 1, xp_type);
        proof {
            lemma_cumulative_monotone(i as int + 1, level as int);
            lemma_cumulative_nonneg(i as int + 1);
            lemma_req_nonneg(i as int + 1);
        }
        cum = cum + req;
        i = i + 1;
    }
    cum
}

/// Given current XP, find the level reached, the progress into it, and
/// the XP needed to finish it.
///
/// A pool of zero XP is level zero by definition, with the fixed
/// boundary threshold as its next step. For any other pool the result
/// names the greatest level whose cumulative requirement is met, with
/// the exact remainder and the exact size of the next step.
pub fn calculate_level_info(current_xp: u128, xp_type: XpType) -> (r: LevelInfo)
    ensures
        current_xp == 0 ==> r == (LevelInfo {
            level: 0,
            current_level_progress: 0,
            xp_needed_to_level: LEVEL_ZERO_NEXT_THRESHOLD,
        }),
        current_xp > 0 ==> is_level_for(current_xp as int, r.level as int),
        r.level as int == spec_level_of(current_xp as int),
        current_xp > 0 ==> r.current_level_progress as int == current_xp - spec_cumulative_xp(
            r.level as int,
        ),
        current_xp > 0 ==> r.xp_needed_to_level as int == spec_xp_required(r.level as int + 1),
{
    if current_xp == 0 {
        proof {
            assert(spec_cumulative_xp(1) == spec_cumulative_xp(0) + spec_xp_required(1));
            assert(is_level_for(0, 0));
            lemma_level_exists(0);
            lemma_level_unique(0, 0, spec_level_of(0));
        }
        return LevelInfo { level: 0, current_level_progress: 0, xp_needed_to_level: LEVEL_ZERO_NEXT_THRESHOLD };
    }
    let mut level: u64 = 0;
    let mut cum: u128 = 0;
    let mut next_req: u128 = xp_required_for_level(1, xp_type);
    loop
        invariant_except_break
            cum as int == spec_cumulative_xp(level as int),
            cum <= current_xp,
            next_req as int == spec_xp_required(level as int + 1),
            level < 0x4000000000000064,
        ensures
            cum as int == spec_cumulative_xp(level as int),
            cum <= current_xp,
            next_req as int == spec_xp_required(level as int + 1),
            current_xp < spec_cumulative_xp(level as int + 1),
        decreases current_xp as int - cum as int,
    {
        match cum.checked_add(next_req) {
            None => {
                break ;
            },
            Some(nc) => {
                if nc <= current_xp {
                    level = level + 1;
                    cum = nc;
                    proof {
                        if level >= 0x4000000000000064 {
                            lemma_cumulative_quadratic(level as int);
                            assert(18 * (level as int - 100) * (level as int - 100)
                                > u128::MAX) by (nonlinear_arith)
                                requires level as int >= 0x4000000000000064;
                        }
                        lemma_req_lower(level as int + 1);
                    }
                    next_req = xp_required_for_level(level + 1, xp_type);
                } else {
                    break ;
                }
            },
        }
    }
    proof {
        assert(is_level_for(current_xp as int, level as int));
        lemma_level_exists(current_xp as int);
        lemma_level_unique(current_xp as int, level as int, spec_level_of(current_xp as int));
    }
    LevelInfo {
        level,
        current_level_progress: current_xp - cum,
        xp_needed_to_level: next_req,
    }
}

/// Per-level and cumulative XP requirements for levels one through
/// `max_level`, for displaying the progression. The listing stops early
/// only where the cumulative total would no longer fit its pool width.
pub fn get_level_progression(max_level: u64, xp_type: XpType) -> (r: Vec<(u64, u128, u128)>)
    ensures
        r@.len() <= max_level,
        forall|i: int|
            0 <= i < r@.len() ==> {
                &&& (#[trigger] r@[i]).0 == i + 1
                &&& r@[i].1 as int == spec_xp_required(i + 1)
                &&& r@[i].2 as int == spec_cumulative_xp(i + 1)
            },
        r@.len() < max_level ==> spec_cumulative_xp(r@.len() as int + 1) > u128::MAX,
{
    let mut out: Vec<(u64, u128, u128)> = Vec::new();
    let mut level: u64 = 0;
    let mut cum: u128 = 0;
    loop
        invariant_except_break
            level <= max_level,
            cum as int == spec_cumulative_xp(level as int),
            out@.len() == level,
            forall|i: int|
                0 <= i < out@.len() ==> {
                    &&& (#[trigger] out@[i]).0 == i + 1
                    &&& out@[i].1 as int == spec_xp_required(i + 1)
                    &&& out@[i].2 as int == spec_cumulative_xp(i + 1)
                },
        ensures
            out@.len() <= max_level,
            forall|i: int|
                0 <= i < out@.len() ==> {
                    &&& (#[trigger] out@[i]).0 == i + 1
                    &&& out@[i].1 as int == spec_xp_required(i + 1)
                    &&& out@[i].2 as int == spec_cumulative_xp(i + 1)
                },
            out@.len() < max_level ==> spec_cumulative_xp(out@.len() as int + 1) > u128::MAX,
        decreases max_level - level,
    {
        if level >= max_level {
            break ;
        }
        let req = xp_required_for_level(level + 1, xp_type);
        match cum.checked_add(req) {
            None => {
                break ;
            },
            Some(nc) => {
                cum = nc;
                level = level + 1;
                out.push((level, req, cum));
            },
        }
    }
    out
}

/// The level any pool that fits a ledger slot can have reached: it
/// exists and lies far below the range where level arithmetic could
/// overflow.
pub proof fn lemma_level_of_bound(xp: int)
    requires
        0 <= xp <= u128::MAX,
    ensures
        is_level_for(xp, spec_level_of(xp)),
        0 <= spec_level_of(xp) < 0x4000000000000064,
{
    lemma_level_exists(xp);
    lemma_level_bound(xp, spec_level_of(xp));
}

/// A contribution floored at the baseline of one whole point, expressed
/// in fiftieths of a point.
pub open spec fn spec_floor_baseline(v: int) -> int {
    if v < 50 {
        50
    } else {
        v
    }
}

/// The three weighted contributions of one scan, in fiftieths of a
/// point, before the knowledge multiplier is applied.
///
/// Lines added are weighted by the output multiplier `1 + level / 10`,
/// lines deleted by the pedantry multiplier `1 + level / 5`, and the
/// message-length metric (one point per ten characters) by the
/// precision multiplier `1 + level / 50`. Each contribution is floored
/// at one point so no stat suppresses the reward below baseline, and
/// the three are then summed.
pub open spec fn spec_gain_units(
    additions: int,
    deletions: int,
    commit_msg_len: int,
    output_level: int,
    pedantry_level: int,
    precision_level: int,
) -> int {
    spec_floor_baseline(5 * additions * (10 + output_level)) + spec_floor_baseline(
        10 * deletions * (5 + pedantry_level),
    ) + spec_floor_baseline((commit_msg_len / 10) * (50 + precision_level))
}

/// The XP awarded for one scan: the summed contributions scaled by the
/// knowledge multiplier `1 + level / 500`, in exact integer arithmetic
/// (the working unit is a twenty-five-thousandth of a point), rounded
/// down to whole XP.
pub open spec fn spec_total_xp_gain(
    exp: Experience,
    additions: int,
    deletions: int,
    commit_msg_len: int,
) -> int {
    let units: int = spec_gain_units(
        additions,
        deletions,
        commit_msg_len,
        spec_level_of(exp.output as int),
        spec_level_of(exp.pedantry as int),
        spec_level_of(exp.precision as int),
    );
    units * (500 + spec_level_of(exp.knowledge as int)) / 25000
}

fn floor_baseline(v: u128) -> (r: u128)
    ensures
        r as int == spec_floor_baseline(v as int),
{
    if v < 50 {
        50
    } else {
        v
    }
}

/// The total XP one scan earns, given the ledger's current experience
/// and the summed lines added, lines deleted and commit message length
/// of the new commits.
///
/// The reward follows the stated combination rule exactly: each of the
/// three contributions is floored at one point, the three are summed,
/// and the sum is scaled by the knowledge multiplier. A result too
/// large for a ledger pool saturates at the pool's width instead of
/// wrapping.
pub fn total_xp_gain(exp: &Experience, additions: u32, deletions: u32, commit_msg_len: u32) -> (r:
    u128)
    ensures
        ({
            let exact: int = spec_total_xp_gain(
                *exp,
                additions as int,
                deletions as int,
                commit_msg_len as int,
            );
            r as int == if exact <= u128::MAX {
                exact
            } else {
                u128::MAX as int
            }
        }),
{
    let output = calculate_level_info(exp.output, XpType::Output);
    let pedantry = calculate_level_info(exp.pedantry, XpType::Pedantry);
    let precision = calculate_level_info(exp.precision, XpType::Precision);
    let knowledge = calculate_level_info(exp.knowledge, XpType::Knowledge);
    proof {
        lemma_level_of_bound(exp.output as int);
        lemma_level_of_bound(exp.pedantry as int);
        lemma_level_of_bound(exp.precision as int);
        lemma_level_of_bound(exp.knowledge as int);
    }
    let lo: u128 = output.level as u128;
    let lpe: u128 = pedantry.level as u128;
    let lpr: u128 = precision.level as u128;
    let lk: u128 = knowledge.level as u128;
    proof {
        assert(5 * (additions as int) * (10 + lo as int) <= 0x100000000000000000000000000)
            by (nonlinear_arith)
            requires
                0 <= (additions as int) && (additions as int) < 0x100000000,
                0 <= (lo as int) && (lo as int) < 0x4000000000000064;
        assert(10 * (deletions as int) * (5 + lpe as int) <= 0x100000000000000000000000000)
            by (nonlinear_arith)
            requires
                0 <= (deletions as int) && (deletions as int) < 0x100000000,
                0 <= (lpe as int) && (lpe as int) < 0x4000000000000064;
        assert(((commit_msg_len as int) / 10) * (50 + lpr as int) <= 0x100000000000000000000000000)
            by (nonlinear_arith)
            requires
                0 <= (commit_msg_len as int) && (commit_msg_len as int) < 0x100000000,
                0 <= (lpr as int) && (lpr as int) < 0x4000000000000064;
    }
    let output_units: u128 = floor_baseline(5 * (additions as u128) * (10 + lo));
    let pedantry_units: u128 = floor_baseline(10 * (deletions as u128) * (5 + lpe));
    let precision_units: u128 = floor_baseline(((commit_msg_len / 10) as u128) * (50 + lpr));
    let units: u128 = output_units + pedantry_units + precision_units;
    let k: u128 = 500 + lk;
    let q: u128 = units / 25000;
    let rem: u128 = units % 25000;
    proof {
        assert(rem < 25000);
        assert((rem as int) * (k as int) <= 25000 * 0x4000000000000264) by (nonlinear_arith)
            requires
                0 <= (rem as int) && (rem as int) < 25000,
                0 <= (k as int) && (k as int) <= 0x4000000000000264;
    }
    let tail: u128 = rem * k / 25000;
    let ghost exact: int = (units as int) * (k as int) / 25000;
    proof {
        lemma_fundamental_div_mod(units as int, 25000);
        lemma_fundamental_div_mod((rem as int) * (k as int), 25000);
        let t2: int = (rem as int) * (k as int) / 25000;
        let r2: int = (rem as int) * (k as int) % 25000;
        assert((units as int) * (k as int) == 25000 * ((q as int) * (k as int) + t2) + r2)
            by (nonlinear_arith)
            requires
                units as int == 25000 * (q as int) + (rem as int),
                (rem as int) * (k as int) == 25000 * t2 + r2;
        lemma_div_multiples_vanish_fancy((q as int) * (k as int) + t2, r2, 25000);
        assert(exact == (q as int) * (k as int) + (tail as int));
    }
    match q.checked_mul(k) {
        None => {
            proof {
                assert((q as int) * (k as int) + (tail as int) > u128::MAX) by (nonlinear_arith)
                    requires
                        (q as int) * (k as int) > u128::MAX,
                        tail as int >= 0;
            }
            u128::MAX
        },
        Some(a) => {
            match a.checked_add(tail) {
                None => u128::MAX,
                Some(v) => v,
            }
        },
    }
}

/// How many basis points a stat's reward multiplier gains per level:
/// output grows by a tenth per level, pedantry by a fifth, precision
/// by a fiftieth and knowledge by a five-hundredth; the virtual total
/// pool has no multiplier of its own.
pub open spec fn spec_multiplier_step(stat: XpType) -> int {
    match stat {
        XpType::Total => 0,
        XpType::Precision => 200,
        XpType::Output => 1000,
        XpType::Pedantry => 2000,
        XpType::Knowledge => 20,
    }
}

/// A stat's reward multiplier at a given level, in basis points: ten
/// thousand is the neutral multiplier of one.
pub fn multiplier_basis_points(level: u64, xp_type: XpType) -> (r: u128)
    ensures
        r as int == 10000 + spec_multiplier_step(xp_type) * level,
{
    match xp_type {
        XpType::Total => 10000,
        XpType::Precision => 10000 + 200 * (level as u128),
        XpType::Output => 10000 + 1000 * (level as u128),
        XpType::Pedantry => 10000 + 2000 * (level as u128),
        XpType::Knowledge => 10000 + 20 * (level as u128),
    }
}

/// The stat a numbered choice at the interactive prompt selects, or
/// nothing for any other input.
pub fn stat_from_choice(choice: u8) -> (r: Option<XpType>)
    ensures
        choice == 1 ==> r == Some(XpType::Precision),
        choice == 2 ==> r == Some(XpType::Output),
        choice == 3 ==> r == Some(XpType::Pedantry),
        choice == 4 ==> r == Some(XpType::Knowledge),
        (choice == 0 || choice > 4) ==> r == None::<XpType>,
{
    if choice == 1 {
        Some(XpType::Precision)
    } else if choice == 2 {
        Some(XpType::Output)
    } else if choice == 3 {
        Some(XpType::Pedantry)
    } else if choice == 4 {
        Some(XpType::Knowledge)
    } else {
        None
    }
}

} // verus!
