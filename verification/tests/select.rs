use theme_switch::select::{format_menu_label, parse_selection, usize_to_decimal, SelectionError};

#[test]
fn selection_plain_number() {
    assert_eq!(parse_selection("3", 10), Ok(3));
}

#[test]
fn selection_trims_input() {
    assert_eq!(parse_selection(" 7\n", 10), Ok(7));
    assert_eq!(parse_selection("\t0 ", 1), Ok(0));
}

#[test]
fn selection_rejects_non_numeric() {
    assert_eq!(parse_selection("abc", 10), Err(SelectionError::NotANumber));
    assert_eq!(parse_selection("1a", 10), Err(SelectionError::NotANumber));
    assert_eq!(parse_selection("-1", 10), Err(SelectionError::NotANumber));
    assert_eq!(parse_selection("", 10), Err(SelectionError::NotANumber));
    assert_eq!(parse_selection("   ", 10), Err(SelectionError::NotANumber));
}

#[test]
fn selection_rejects_out_of_range() {
    assert_eq!(parse_selection("10", 10), Err(SelectionError::OutOfRange));
    assert_eq!(parse_selection("5", 0), Err(SelectionError::OutOfRange));
    assert_eq!(
        parse_selection("99999999999999999999999999", usize::MAX),
        Err(SelectionError::OutOfRange)
    );
}

#[test]
fn selection_boundary() {
    assert_eq!(parse_selection("9", 10), Ok(9));
}

#[test]
fn decimal_rendering() {
    assert_eq!(usize_to_decimal(0), "0");
    assert_eq!(usize_to_decimal(305), "305");
    assert_eq!(usize_to_decimal(18446744073709551615), "18446744073709551615");
}

#[test]
fn menu_label_pads_to_columns() {
    // one index digit: the name is padded to width 39
    let label = format_menu_label(0, "foo");
    assert_eq!(label.len(), 1 + 2 + 39);
    assert_eq!(&label[..6], "0: foo");
    assert!(label[6..].chars().all(|c| c == ' '));
    // two index digits: the name is padded to width 38
    let label = format_menu_label(12, "bar");
    assert_eq!(label.len(), 2 + 2 + 38);
    assert_eq!(&label[..7], "12: bar");
}

#[test]
fn menu_label_keeps_long_name() {
    let name = "a".repeat(50);
    let label = format_menu_label(3, &name);
    assert_eq!(label, format!("3: {}", name));
}
