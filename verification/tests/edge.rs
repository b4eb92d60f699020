use good_lp::{variable, ProblemVariables};
use scheduler_core::domain::SchedulerError;
use scheduler_core::{
    c2str, format_minutes_to_hhmm, parse_one_window, solve_schedule, window_to_string, ClockVar,
    Entity, Frequency, Frequency::TimesPerDay, ScheduleStrategy, SchedulerConfig, WindowSpec,
};

fn plain(name: &str, n: u32) -> Entity {
    Entity {
        name: name.to_string(),
        category: "med".to_string(),
        frequency: TimesPerDay(n),
        constraints: vec![],
        windows: vec![],
    }
}

fn cfg() -> SchedulerConfig {
    SchedulerConfig {
        day_start_minutes: 480,
        day_end_minutes: 1320,
        strategy: ScheduleStrategy::Earliest,
        global_windows: vec![],
        penalty_weight: 300,
    }
}

#[test]
fn no_entities_yield_an_empty_schedule() {
    let r = solve_schedule(vec![], cfg(), false).unwrap();
    assert!(r.scheduled_events.is_empty());
    assert_eq!(r.total_penalty, 0);
    assert!(r.window_usage.is_empty());
}

#[test]
fn zero_frequency_places_nothing() {
    let r = solve_schedule(vec![plain("A", 0), plain("B", 1)], cfg(), false).unwrap();
    assert_eq!(r.scheduled_events.len(), 1);
    assert_eq!(r.scheduled_events[0].entity_name, "B");
}

#[test]
fn a_single_minute_day_works() {
    let mut c = cfg();
    c.day_start_minutes = 600;
    c.day_end_minutes = 600;
    let r = solve_schedule(vec![plain("A", 1)], c, false).unwrap();
    assert_eq!(r.scheduled_events[0].time_minutes, 600);
}

#[test]
fn frequency_strings_parse_loosely_spaced() {
    assert_eq!(
        Frequency::from_frequency_str(" 3x daily ").unwrap(),
        TimesPerDay(3)
    );
    assert_eq!(
        Frequency::from_frequency_str("2 X Daily").unwrap(),
        TimesPerDay(2)
    );
    assert!(matches!(
        Frequency::from_frequency_str("daily"),
        Err(SchedulerError::BadFrequency(_))
    ));
    // an entity occurs a positive number of times: zero is rejected
    assert!(matches!(
        Frequency::from_frequency_str("0x daily"),
        Err(SchedulerError::BadFrequency(_))
    ));
    assert!(matches!(
        Frequency::from_frequency_str("00x daily"),
        Err(SchedulerError::BadFrequency(_))
    ));
    assert!(matches!(
        Frequency::from_frequency_str("3x weekly"),
        Err(SchedulerError::BadFrequency(_))
    ));
    assert!(matches!(
        Frequency::from_frequency_str("99999999999x daily"),
        Err(SchedulerError::BadFrequency(_))
    ));
}

#[test]
fn negative_minutes_format_signed() {
    assert_eq!(format_minutes_to_hhmm(-61), "-01:01");
    assert_eq!(format_minutes_to_hhmm(1500), "25:00");
}

#[test]
fn window_labels_round_trip_through_the_parser() {
    for s in ["08:00", "12:00-13:00", "23:59"] {
        let w = parse_one_window(s).unwrap();
        assert_eq!(window_to_string(&w), s);
    }
    assert_eq!(window_to_string(&WindowSpec::Anchor(0)), "00:00");
}

#[test]
fn clock_variables_render_with_owner_and_instance() {
    let mut pv = ProblemVariables::new();
    let v = pv.add(variable().min(0).max(10));
    let c = ClockVar {
        entity_name: "Gabapentin".to_string(),
        instance: 2,
        var: v,
    };
    assert_eq!(c2str(&c), "(Gabapentin_var2)");
}

#[test]
fn instance_numbering_follows_time() {
    let es = vec![Entity {
        name: "A".to_string(),
        category: "med".to_string(),
        frequency: TimesPerDay(3),
        constraints: vec![],
        windows: vec![],
    }];
    let r = solve_schedule(es, cfg(), false).unwrap();
    let mut by_instance: Vec<(usize, i32)> = r
        .scheduled_events
        .iter()
        .map(|e| (e.instance, e.time_minutes))
        .collect();
    by_instance.sort();
    for pair in by_instance.windows(2) {
        assert!(pair[0].1 <= pair[1].1);
    }
}
