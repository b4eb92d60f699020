use scheduler_core::data;
use scheduler_core::data_simple;
use scheduler_core::domain::SchedulerError;
use scheduler_core::{parse_from_table, ConstraintType, Frequency, WindowSpec};

#[test]
fn parses_the_sample_table() {
    let rows = data::create_sample_table();
    let es = parse_from_table(rows).unwrap();
    assert_eq!(es.len(), 5);
    assert_eq!(es[0].name, "Antepsin");
    assert_eq!(es[0].category, "med");
    assert_eq!(es[0].frequency, Frequency::TimesPerDay(3));
    assert_eq!(es[0].constraints.len(), 3);
    assert!(matches!(es[0].constraints[0].ctype, ConstraintType::Apart));
    assert!(matches!(es[0].constraints[1].ctype, ConstraintType::Before));
    assert!(matches!(es[0].constraints[2].ctype, ConstraintType::After));
    assert_eq!(es[4].name, "Chicken and rice");
    assert_eq!(es[4].category, "food");
    assert_eq!(
        es[4].windows,
        vec![WindowSpec::Anchor(480), WindowSpec::Range(1080, 1200)]
    );
}

#[test]
fn parses_the_simple_sample_table() {
    let rows = data_simple::create_sample_table();
    let es = parse_from_table(rows).unwrap();
    assert_eq!(es.len(), 1);
    assert_eq!(es[0].name, "Chicken and rice");
    assert_eq!(es[0].frequency, Frequency::TimesPerDay(1));
    assert_eq!(es[0].windows, vec![WindowSpec::Range(720, 780)]);
}

#[test]
fn accepts_event_as_name_column() {
    let rows = vec![
        vec!["Event".to_string(), "Category".to_string(), "Frequency".to_string()],
        vec!["A".to_string(), "med".to_string(), "1x daily".to_string()],
    ];
    let es = parse_from_table(rows).unwrap();
    assert_eq!(es[0].name, "A");
    assert!(es[0].constraints.is_empty());
    assert!(es[0].windows.is_empty());
}

#[test]
fn rejects_missing_required_column() {
    let rows = vec![
        vec!["Entity".to_string(), "Category".to_string()],
        vec!["A".to_string(), "med".to_string()],
    ];
    assert!(matches!(
        parse_from_table(rows),
        Err(SchedulerError::BadTable(_, _, _))
    ));
}

#[test]
fn rejects_bad_cells_with_row_position() {
    let rows = vec![
        vec!["Entity".to_string(), "Category".to_string(), "Frequency".to_string()],
        vec!["A".to_string(), "med".to_string(), "sometimes".to_string()],
    ];
    match parse_from_table(rows) {
        Err(SchedulerError::BadTable(row, col, _)) => {
            assert_eq!(row, 1);
            assert_eq!(col, 2);
        },
        other => panic!("expected a table error, got {:?}", other),
    }
}

#[test]
fn rejects_empty_table() {
    let rows: Vec<Vec<String>> = vec![];
    assert!(matches!(
        parse_from_table(rows),
        Err(SchedulerError::BadTable(_, _, _))
    ));
}

#[test]
fn rejects_malformed_bracket_list() {
    let rows = vec![
        vec![
            "Entity".to_string(),
            "Category".to_string(),
            "Frequency".to_string(),
            "Constraints".to_string(),
        ],
        vec![
            "A".to_string(),
            "med".to_string(),
            "1x daily".to_string(),
            "≥6h apart".to_string(),
        ],
    ];
    assert!(matches!(
        parse_from_table(rows),
        Err(SchedulerError::BadTable(_, _, _))
    ));
}
