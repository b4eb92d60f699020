use scheduler_core::domain::SchedulerError;
use scheduler_core::{format_minutes_to_hhmm, parse_hhmm_to_minutes};

#[test]
fn parses_two_digit_hours() {
    assert_eq!(parse_hhmm_to_minutes("08:00").unwrap(), 480);
    assert_eq!(parse_hhmm_to_minutes("22:00").unwrap(), 1320);
    assert_eq!(parse_hhmm_to_minutes("00:00").unwrap(), 0);
    assert_eq!(parse_hhmm_to_minutes("23:59").unwrap(), 1439);
}

#[test]
fn parses_one_digit_hours() {
    assert_eq!(parse_hhmm_to_minutes("8:05").unwrap(), 485);
    assert_eq!(parse_hhmm_to_minutes("0:01").unwrap(), 1);
}

#[test]
fn rejects_out_of_range_times() {
    assert!(matches!(
        parse_hhmm_to_minutes("24:00"),
        Err(SchedulerError::BadTime(_))
    ));
    assert!(matches!(
        parse_hhmm_to_minutes("12:60"),
        Err(SchedulerError::BadTime(_))
    ));
}

#[test]
fn rejects_malformed_times() {
    for s in ["", "12", "12:0", "12:000", "1200", "a2:00", "12:a0", " 12:00", "12 :00"] {
        assert!(
            matches!(parse_hhmm_to_minutes(s), Err(SchedulerError::BadTime(_))),
            "accepted {:?}",
            s
        );
    }
}

#[test]
fn formats_with_zero_padding() {
    assert_eq!(format_minutes_to_hhmm(0), "00:00");
    assert_eq!(format_minutes_to_hhmm(485), "08:05");
    assert_eq!(format_minutes_to_hhmm(720), "12:00");
    assert_eq!(format_minutes_to_hhmm(1439), "23:59");
}

#[test]
fn round_trip_normalizes_hours() {
    // formatting a parsed time zero-pads the hour and keeps everything else
    for s in ["08:00", "8:00", "23:59", "0:07", "12:34"] {
        let m = parse_hhmm_to_minutes(s).unwrap();
        let back = format_minutes_to_hhmm(m);
        let normalized = if s.len() == 4 { format!("0{}", s) } else { s.to_string() };
        assert_eq!(back, normalized);
    }
}
