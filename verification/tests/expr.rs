use scheduler_core::domain::SchedulerError;
use scheduler_core::{
    constraint_to_string, parse_constraints, parse_one_constraint, parse_one_window,
    parse_windows, parse_windows_string, window_to_string, ConstraintRef, ConstraintType,
    WindowSpec,
};

#[test]
fn parses_apart_within_group() {
    let c = parse_one_constraint("≥6h apart").unwrap();
    assert_eq!(c.time_hours, 6);
    assert!(matches!(c.ctype, ConstraintType::Apart));
    assert!(matches!(c.cref, ConstraintRef::WithinGroup));
}

#[test]
fn parses_ascii_marker_and_mixed_case() {
    let c = parse_one_constraint(">=8H APART").unwrap();
    assert_eq!(c.time_hours, 8);
    assert!(matches!(c.ctype, ConstraintType::Apart));
}

#[test]
fn parses_apart_from_word() {
    let c = parse_one_constraint("≥2h apart from food").unwrap();
    assert_eq!(c.time_hours, 2);
    assert!(matches!(c.ctype, ConstraintType::ApartFrom));
    match &c.cref {
        ConstraintRef::Unresolved(w) => assert_eq!(w, "food"),
        _ => panic!("expected an unresolved reference"),
    }
}

#[test]
fn parses_before_and_after() {
    let b = parse_one_constraint("≥1h before food").unwrap();
    assert!(matches!(b.ctype, ConstraintType::Before));
    let a = parse_one_constraint("≥2h after Chicken and rice").unwrap();
    assert!(matches!(a.ctype, ConstraintType::After));
    match &a.cref {
        ConstraintRef::Unresolved(w) => assert_eq!(w, "Chicken and rice"),
        _ => panic!("expected an unresolved reference"),
    }
}

#[test]
fn keeps_word_casing_verbatim() {
    let c = parse_one_constraint("≥1h before Food").unwrap();
    match &c.cref {
        ConstraintRef::Unresolved(w) => assert_eq!(w, "Food"),
        _ => panic!("expected an unresolved reference"),
    }
}

#[test]
fn trims_surrounding_blanks() {
    let c = parse_one_constraint("  ≥6h apart  ").unwrap();
    assert_eq!(c.time_hours, 6);
}

#[test]
fn rejects_malformed_constraints() {
    for s in [
        "",
        "6h apart",
        "≥h apart",
        "≥6 apart",
        "≥6h",
        "≥6h apart from",
        "≥6h before",
        "≥6h sideways",
        "≥6hapart",
        "≥99999999999h apart",
    ] {
        assert!(
            matches!(parse_one_constraint(s), Err(SchedulerError::BadConstraint(_))),
            "accepted {:?}",
            s
        );
    }
}

#[test]
fn constraint_round_trip() {
    for s in ["≥6h apart", "≥2h apart from food", "≥1h before food", "≥12h after Gabapentin"] {
        let c = parse_one_constraint(s).unwrap();
        let back = constraint_to_string(&c);
        let c2 = parse_one_constraint(&back).unwrap();
        assert_eq!(c, c2, "round trip changed {:?} (via {:?})", s, back);
    }
}

#[test]
fn parses_anchor_and_range_windows() {
    assert_eq!(parse_one_window("08:00").unwrap(), WindowSpec::Anchor(480));
    assert_eq!(
        parse_one_window("12:00-13:00").unwrap(),
        WindowSpec::Range(720, 780)
    );
    assert_eq!(parse_one_window(" 18:30 ").unwrap(), WindowSpec::Anchor(1110));
}

#[test]
fn rejects_inverted_and_malformed_windows() {
    for s in ["13:00-12:00", "12:00-", "-13:00", "noon", "12:00 - 13:00", ""] {
        assert!(
            matches!(parse_one_window(s), Err(SchedulerError::BadWindow(_))),
            "accepted {:?}",
            s
        );
    }
}

#[test]
fn window_round_trip() {
    for w in [
        WindowSpec::Anchor(480),
        WindowSpec::Anchor(0),
        WindowSpec::Range(720, 780),
        WindowSpec::Range(0, 1439),
    ] {
        let s = window_to_string(&w);
        assert_eq!(parse_one_window(&s).unwrap(), w, "via {:?}", s);
    }
}

#[test]
fn point_range_label_differs_from_anchor_but_both_parse() {
    let r = parse_one_window("09:00-09:00").unwrap();
    assert_eq!(r, WindowSpec::Range(540, 540));
}

#[test]
fn parses_window_lists() {
    let ws = parse_windows(&vec!["08:00".to_string(), "18:00-20:00".to_string()]).unwrap();
    assert_eq!(ws, vec![WindowSpec::Anchor(480), WindowSpec::Range(1080, 1200)]);
    assert!(parse_windows(&vec!["8:61".to_string()]).is_err());
}

#[test]
fn parses_constraint_lists() {
    let cs =
        parse_constraints(&vec!["≥6h apart".to_string(), "≥1h before food".to_string()]).unwrap();
    assert_eq!(cs.len(), 2);
    assert!(parse_constraints(&vec!["nope".to_string()]).is_err());
}

#[test]
fn parses_comma_separated_windows_string() {
    let ws = parse_windows_string("08:00,12:00-13:00,18:00").unwrap();
    assert_eq!(
        ws,
        vec![
            WindowSpec::Anchor(480),
            WindowSpec::Range(720, 780),
            WindowSpec::Anchor(1080)
        ]
    );
    // blanks around pieces and range sides are tolerated; empty pieces skipped
    let ws2 = parse_windows_string(" 08:00 , 12:00 - 13:00 ,,").unwrap();
    assert_eq!(ws2, vec![WindowSpec::Anchor(480), WindowSpec::Range(720, 780)]);
    assert!(parse_windows_string("08:00,13:00-12:00").is_err());
    assert_eq!(parse_windows_string("").unwrap(), vec![]);
}
