use scheduler_core::domain::SchedulerError;
use scheduler_core::{
    default_config, parse_one_constraint, parse_one_window, run_schedule_with_stratey,
    run_scheduler, solve_schedule, ConstraintExpr, Entity, Frequency, ScheduleResult,
    ScheduleStrategy, SchedulerConfig, WindowSpec,
};

fn entity(name: &str, category: &str, n: u32, constraints: &[&str], windows: &[&str]) -> Entity {
    Entity {
        name: name.to_string(),
        category: category.to_string(),
        frequency: Frequency::TimesPerDay(n),
        constraints: constraints
            .iter()
            .map(|s| parse_one_constraint(s).unwrap())
            .collect::<Vec<ConstraintExpr>>(),
        windows: windows
            .iter()
            .map(|s| parse_one_window(s).unwrap())
            .collect::<Vec<WindowSpec>>(),
    }
}

fn config(strategy: ScheduleStrategy, weight: u32, globals: &[&str]) -> SchedulerConfig {
    SchedulerConfig {
        day_start_minutes: 480,
        day_end_minutes: 1320,
        strategy,
        global_windows: globals
            .iter()
            .map(|s| parse_one_window(s).unwrap())
            .collect::<Vec<WindowSpec>>(),
        penalty_weight: weight,
    }
}

fn times_of(r: &ScheduleResult, name: &str) -> Vec<i32> {
    r.scheduled_events
        .iter()
        .filter(|e| e.entity_name == name)
        .map(|e| e.time_minutes)
        .collect()
}

#[test]
fn one_meal_with_a_range_window() {
    // the window outweighs the pull toward the day start (2.0 per minute of
    // deviation against 1.0 per minute of earliness)
    let es = vec![entity("Chicken", "food", 1, &[], &["12:00-13:00"])];
    let r = solve_schedule(es, config(ScheduleStrategy::Earliest, 2000, &[]), false).unwrap();
    assert_eq!(times_of(&r, "Chicken"), vec![720]);
    assert_eq!(r.total_penalty, 0);
    assert_eq!(r.window_usage.len(), 1);
    assert_eq!(r.window_usage[0].0, "Chicken");
    assert_eq!(r.window_usage[0].1, "12:00-13:00");
    assert_eq!(r.window_usage[0].2, vec![1]);
}

#[test]
fn two_doses_eight_hours_apart_earliest() {
    let es = vec![entity("Gabapentin", "med", 2, &["≥8h apart"], &[])];
    let r = solve_schedule(es, config(ScheduleStrategy::Earliest, 300, &[]), false).unwrap();
    assert_eq!(times_of(&r, "Gabapentin"), vec![480, 960]);
}

#[test]
fn two_doses_eight_hours_apart_latest() {
    let es = vec![entity("Gabapentin", "med", 2, &["≥8h apart"], &[])];
    let r = solve_schedule(es, config(ScheduleStrategy::Latest, 300, &[]), false).unwrap();
    assert_eq!(times_of(&r, "Gabapentin"), vec![840, 1320]);
}

#[test]
fn three_doses_cannot_fit() {
    let es = vec![entity("X", "med", 3, &["≥8h apart"], &[])];
    let r = solve_schedule(es, config(ScheduleStrategy::Earliest, 300, &[]), false);
    assert!(matches!(r, Err(SchedulerError::Infeasible)));
}

#[test]
fn oversized_cross_gap_is_infeasible() {
    // a gap wider than the 14-hour day, demanded between two real instances
    let es = vec![
        entity("A", "med", 1, &["≥25h before B"], &[]),
        entity("B", "med", 1, &[], &[]),
    ];
    let r = solve_schedule(es, config(ScheduleStrategy::Earliest, 300, &[]), false);
    assert!(matches!(r, Err(SchedulerError::Infeasible)));
    // with no applicable pair the same constraint is simply dropped
    let es2 = vec![entity("A", "med", 1, &["≥25h before B"], &[])];
    let r2 = solve_schedule(es2, config(ScheduleStrategy::Earliest, 300, &[]), false).unwrap();
    assert_eq!(times_of(&r2, "A"), vec![480]);
}

#[test]
fn full_sample_table_is_infeasible() {
    // the Antepsin row demands both "before" and "after" every food
    // instance, which no schedule can satisfy
    let es = scheduler_core::parse_from_table(scheduler_core::data::create_sample_table()).unwrap();
    let r = solve_schedule(es, default_config(), false);
    assert!(matches!(r, Err(SchedulerError::Infeasible)));
}

#[test]
fn simple_sample_table_solves() {
    let es =
        scheduler_core::parse_from_table(scheduler_core::data_simple::create_sample_table())
            .unwrap();
    let mut cfg = default_config();
    cfg.penalty_weight = 2000;
    let r = solve_schedule(es, cfg, false).unwrap();
    assert_eq!(times_of(&r, "Chicken and rice"), vec![720]);
    assert_eq!(r.total_penalty, 0);
}

#[test]
fn cross_entity_before_keeps_the_gap() {
    let es = vec![
        entity("Antepsin", "med", 3, &["≥6h apart", "≥1h before food"], &[]),
        entity("Chicken", "food", 2, &[], &["08:00", "18:00-20:00"]),
    ];
    let r = solve_schedule(es, config(ScheduleStrategy::Earliest, 2000, &[]), false).unwrap();
    let ants = times_of(&r, "Antepsin");
    let food = times_of(&r, "Chicken");
    assert_eq!(ants.len(), 3);
    assert_eq!(food.len(), 2);
    for a in &ants {
        for f in &food {
            assert!(f - a >= 60, "antepsin at {} not an hour before food at {}", a, f);
        }
    }
    for pair in ants.windows(2) {
        assert!(pair[1] - pair[0] >= 360);
    }
}

#[test]
fn global_windows_cover_entities_without_their_own() {
    let es = vec![entity("Med", "med", 2, &[], &[])];
    let r = solve_schedule(
        es,
        config(ScheduleStrategy::Earliest, 2000, &["09:00", "17:00"]),
        false,
    )
    .unwrap();
    assert_eq!(times_of(&r, "Med"), vec![540, 1020]);
    assert_eq!(r.total_penalty, 0);
    // each instance sits on its own window
    assert_eq!(r.window_usage.len(), 2);
}

#[test]
fn single_dose_lands_on_the_day_bounds() {
    let es = vec![entity("A", "med", 1, &[], &[])];
    let r1 = solve_schedule(
        es.clone(),
        config(ScheduleStrategy::Earliest, 300, &[]),
        false,
    )
    .unwrap();
    assert_eq!(times_of(&r1, "A"), vec![480]);
    let r2 = solve_schedule(es, config(ScheduleStrategy::Latest, 300, &[]), false).unwrap();
    assert_eq!(times_of(&r2, "A"), vec![1320]);
}

#[test]
fn point_range_behaves_like_anchor() {
    let es1 = vec![entity("A", "med", 1, &[], &["10:00-10:00"])];
    let es2 = vec![entity("A", "med", 1, &[], &["10:00"])];
    let cfg = config(ScheduleStrategy::Earliest, 2000, &[]);
    let r1 = solve_schedule(es1, cfg.clone(), false).unwrap();
    let r2 = solve_schedule(es2, cfg, false).unwrap();
    assert_eq!(times_of(&r1, "A"), times_of(&r2, "A"));
    assert_eq!(r1.total_penalty, r2.total_penalty);
}

#[test]
fn zero_weight_disables_window_influence() {
    let es = vec![entity("A", "med", 1, &[], &["12:00"])];
    let r = solve_schedule(es, config(ScheduleStrategy::Earliest, 0, &[]), false).unwrap();
    assert_eq!(r.total_penalty, 0);
    assert_eq!(times_of(&r, "A"), vec![480]);
}

#[test]
fn permutation_of_entities_gives_the_same_triples() {
    let a = entity("Gabapentin", "med", 2, &["≥8h apart"], &[]);
    let b = entity("Pardale", "med", 2, &["≥8h apart"], &[]);
    let cfg = config(ScheduleStrategy::Earliest, 300, &[]);
    let r1 = solve_schedule(vec![a.clone(), b.clone()], cfg.clone(), false).unwrap();
    let r2 = solve_schedule(vec![b, a], cfg, false).unwrap();
    let mut t1: Vec<(String, usize, i32)> = r1
        .scheduled_events
        .iter()
        .map(|e| (e.entity_name.clone(), e.instance, e.time_minutes))
        .collect();
    let mut t2: Vec<(String, usize, i32)> = r2
        .scheduled_events
        .iter()
        .map(|e| (e.entity_name.clone(), e.instance, e.time_minutes))
        .collect();
    t1.sort();
    t2.sort();
    assert_eq!(t1, t2);
}

#[test]
fn apart_gap_holds_between_every_pair() {
    let es = vec![entity("A", "med", 3, &["≥4h apart"], &[])];
    let r = solve_schedule(es, config(ScheduleStrategy::Earliest, 300, &[]), false).unwrap();
    let ts = times_of(&r, "A");
    for i in 0..ts.len() {
        for j in 0..ts.len() {
            if i != j {
                assert!((ts[i] - ts[j]).abs() >= 240);
            }
        }
    }
}

#[test]
fn every_time_lies_in_the_day() {
    let es = vec![
        entity("A", "med", 2, &["≥3h apart"], &["09:00"]),
        entity("B", "med", 1, &["≥1h apart from A"], &[]),
    ];
    let r = solve_schedule(es, config(ScheduleStrategy::Latest, 300, &[]), false).unwrap();
    for e in &r.scheduled_events {
        assert!(e.time_minutes >= 480 && e.time_minutes <= 1320);
    }
    // events come sorted by time
    for pair in r.scheduled_events.windows(2) {
        assert!(pair[0].time_minutes <= pair[1].time_minutes);
    }
}

#[test]
fn apart_from_separates_both_entities() {
    let es = vec![
        entity("A", "med", 1, &["≥2h apart from B"], &[]),
        entity("B", "med", 1, &[], &[]),
    ];
    let r = solve_schedule(es, config(ScheduleStrategy::Earliest, 300, &[]), false).unwrap();
    let a = times_of(&r, "A")[0];
    let b = times_of(&r, "B")[0];
    assert!((a - b).abs() >= 120);
}

#[test]
fn category_reference_targets_every_member() {
    let es = vec![
        entity("A", "med", 1, &["≥1h before food"], &[]),
        entity("Lunch", "food", 1, &[], &[]),
        entity("Dinner", "food", 1, &[], &[]),
    ];
    let r = solve_schedule(es, config(ScheduleStrategy::Earliest, 300, &[]), false).unwrap();
    let a = times_of(&r, "A")[0];
    for name in ["Lunch", "Dinner"] {
        assert!(times_of(&r, name)[0] - a >= 60);
    }
}

#[test]
fn unresolved_references_are_dropped() {
    let es = vec![entity("A", "med", 1, &["≥1h before nothing"], &[])];
    let r = solve_schedule(es, config(ScheduleStrategy::Earliest, 300, &[]), false).unwrap();
    assert_eq!(times_of(&r, "A"), vec![480]);
}

#[test]
fn inverted_day_is_a_config_error() {
    let es = vec![entity("A", "med", 1, &[], &[])];
    let mut cfg = config(ScheduleStrategy::Earliest, 300, &[]);
    cfg.day_end_minutes = 300;
    assert!(matches!(
        solve_schedule(es, cfg, false),
        Err(SchedulerError::BadConfig(_))
    ));
}

#[test]
fn out_of_day_window_is_rejected() {
    let es = vec![Entity {
        name: "A".to_string(),
        category: "med".to_string(),
        frequency: Frequency::TimesPerDay(1),
        constraints: vec![],
        windows: vec![WindowSpec::Anchor(-5)],
    }];
    assert!(matches!(
        solve_schedule(es, config(ScheduleStrategy::Earliest, 300, &[]), false),
        Err(SchedulerError::BadWindow(_))
    ));
}

#[test]
fn oversized_demand_is_a_solver_error() {
    let es = vec![entity("A", "med", 3_000_000, &[], &[])];
    assert!(matches!(
        solve_schedule(es, config(ScheduleStrategy::Earliest, 300, &[]), false),
        Err(SchedulerError::SolverError(_))
    ));
}

#[test]
fn default_config_matches_the_documented_defaults() {
    let cfg = default_config();
    assert_eq!(cfg.day_start_minutes, 480);
    assert_eq!(cfg.day_end_minutes, 1320);
    assert!(matches!(cfg.strategy, ScheduleStrategy::Earliest));
    assert!(cfg.global_windows.is_empty());
    assert_eq!(cfg.penalty_weight, 300);
}

#[test]
fn run_helpers_forward_to_the_solver() {
    let es = vec![entity("Gabapentin", "med", 2, &["≥8h apart"], &[])];
    let r = run_schedule_with_stratey(es.clone(), ScheduleStrategy::Latest, false).unwrap();
    assert_eq!(times_of(&r, "Gabapentin"), vec![840, 1320]);
    let r2 = run_scheduler(es, default_config(), true).unwrap();
    assert_eq!(times_of(&r2, "Gabapentin"), vec![480, 960]);
}

#[test]
fn penalty_counts_weighted_deviation() {
    // one anchor at noon, one instance forced to the day start by a hard
    // bound: deviation 240 minutes at weight 1.5 (1500 thousandths)
    let es = vec![entity("A", "med", 1, &["≥14h before B"], &["12:00"])];
    let es = vec![
        es.into_iter().next().unwrap(),
        entity("B", "med", 1, &[], &[]),
    ];
    let r = solve_schedule(es, config(ScheduleStrategy::Earliest, 1500, &[]), false).unwrap();
    let a = times_of(&r, "A")[0];
    assert_eq!(a, 480);
    assert_eq!(r.total_penalty, 1500 * 240);
}
