use git_ascend::scaling::{
    calculate_level_info, get_level_progression, multiplier_basis_points, stat_from_choice,
    total_xp_for_level, total_xp_gain, xp_required_for_level, LevelInfo, XpType,
};
use git_ascend::state::Experience;

fn zero_exp() -> Experience {
    Experience {
        total: 0,
        precision: 0,
        output: 0,
        pedantry: 0,
        knowledge: 0,
    }
}

#[test]
fn requirement_low_levels_are_twice_the_level() {
    // The logistic part of the curve rounds to zero through level 19,
    // leaving only the linear bonus of two XP per level.
    for level in 1..=19u64 {
        assert_eq!(
            xp_required_for_level(level, XpType::Total),
            2 * level as u128
        );
    }
}

#[test]
fn requirement_at_midpoint_and_past_it() {
    // At the midpoint the logistic curve reaches half its ceiling.
    assert_eq!(xp_required_for_level(100, XpType::Total), 750 + 200);
    // Past the midpoint the curve grows linearly at 37.5 per level,
    // rounded half up.
    assert_eq!(xp_required_for_level(101, XpType::Total), 788);
    assert_eq!(xp_required_for_level(102, XpType::Total), 825);
    assert_eq!(xp_required_for_level(0, XpType::Total), 0);
}

#[test]
fn cumulative_is_the_sum_of_requirements() {
    assert_eq!(total_xp_for_level(0, XpType::Total), 0);
    assert_eq!(total_xp_for_level(1, XpType::Total), 2);
    assert_eq!(total_xp_for_level(2, XpType::Total), 6);
    assert_eq!(total_xp_for_level(7, XpType::Total), 56);
    assert_eq!(total_xp_for_level(19, XpType::Total), 380);
    assert_eq!(total_xp_for_level(20, XpType::Total), 421);
}

#[test]
fn level_info_boundary_at_zero_xp() {
    // Zero XP is level zero by definition, with the fixed level-one
    // threshold as the reported next step, for every stat.
    for stat in [
        XpType::Total,
        XpType::Precision,
        XpType::Output,
        XpType::Pedantry,
        XpType::Knowledge,
    ] {
        let info = calculate_level_info(0, stat);
        assert_eq!(
            info,
            LevelInfo {
                level: 0,
                current_level_progress: 0,
                xp_needed_to_level: 50,
            }
        );
    }
}

#[test]
fn level_info_small_values() {
    let info = calculate_level_info(1, XpType::Total);
    assert_eq!(info.level, 0);
    assert_eq!(info.current_level_progress, 1);
    assert_eq!(info.xp_needed_to_level, 2);

    let info = calculate_level_info(2, XpType::Total);
    assert_eq!(info.level, 1);
    assert_eq!(info.current_level_progress, 0);
    assert_eq!(info.xp_needed_to_level, 4);

    let info = calculate_level_info(62, XpType::Total);
    assert_eq!(info.level, 7);
    assert_eq!(info.current_level_progress, 6);
    assert_eq!(info.xp_needed_to_level, 16);

    let info = calculate_level_info(421, XpType::Total);
    assert_eq!(info.level, 20);
    assert_eq!(info.current_level_progress, 0);
    assert_eq!(info.xp_needed_to_level, 43);
}

#[test]
fn level_never_falls_as_xp_grows() {
    // Concrete check of the monotonicity law proved in the library.
    let mut last = 0u64;
    for xp in [0u128, 1, 2, 6, 10, 56, 62, 100, 380, 421, 10_000] {
        let level = calculate_level_info(xp, XpType::Total).level;
        assert!(level >= last);
        last = level;
    }
}

#[test]
fn progression_lists_requirement_and_cumulative() {
    let p = get_level_progression(3, XpType::Total);
    assert_eq!(p, vec![(1, 2, 2), (2, 4, 6), (3, 6, 12)]);
}

#[test]
fn gain_floors_every_contribution_at_one_point() {
    // All three contributions floor at one point each; the knowledge
    // multiplier is neutral at level zero.
    assert_eq!(total_xp_gain(&zero_exp(), 0, 0, 0), 3);
}

#[test]
fn gain_example_scenario() {
    // One commit with 40 lines added, 10 deleted and a 120-byte
    // message (a length metric of 12), with every multiplier at its
    // baseline: the contributions are 40, 10 and 12, summed and
    // scaled by a neutral knowledge multiplier.
    assert_eq!(total_xp_gain(&zero_exp(), 40, 10, 120), 62);
    // After crediting those 62 XP, the total sits at level 7.
    assert_eq!(calculate_level_info(62, XpType::Total).level, 7);
}

#[test]
fn gain_grows_with_the_output_level() {
    // An output pool of 2 XP is level one, so lines added are worth
    // a tenth more.
    let exp = Experience {
        output: 2,
        ..zero_exp()
    };
    assert_eq!(total_xp_gain(&exp, 40, 0, 0), 46);
}

#[test]
fn gain_scales_with_the_knowledge_level() {
    // A knowledge pool of 421 XP is level 20, scaling the whole
    // reward by 520/500.
    let exp = Experience {
        knowledge: 421,
        ..zero_exp()
    };
    assert_eq!(total_xp_gain(&exp, 40, 10, 120), 64);
}

#[test]
fn multiplier_basis_points_per_stat() {
    assert_eq!(multiplier_basis_points(0, XpType::Output), 10_000);
    assert_eq!(multiplier_basis_points(5, XpType::Output), 15_000);
    assert_eq!(multiplier_basis_points(3, XpType::Pedantry), 16_000);
    assert_eq!(multiplier_basis_points(2, XpType::Precision), 10_400);
    assert_eq!(multiplier_basis_points(10, XpType::Knowledge), 10_200);
    assert_eq!(multiplier_basis_points(7, XpType::Total), 10_000);
}

#[test]
fn stat_choice_maps_the_menu_numbers() {
    assert_eq!(stat_from_choice(1), Some(XpType::Precision));
    assert_eq!(stat_from_choice(2), Some(XpType::Output));
    assert_eq!(stat_from_choice(3), Some(XpType::Pedantry));
    assert_eq!(stat_from_choice(4), Some(XpType::Knowledge));
    assert_eq!(stat_from_choice(0), None);
    assert_eq!(stat_from_choice(5), None);
    assert_eq!(stat_from_choice(255), None);
}
