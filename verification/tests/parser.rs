use midibato::touch::{Touch, TouchKind};

#[test]
fn parses_press_line() {
    let t = Touch::from_str("Press 3 120 45").unwrap();
    assert_eq!(t.kind, TouchKind::Press);
    assert_eq!(t.slot, 3);
    assert_eq!(t.position, [120, 45]);
}

#[test]
fn parses_release_line() {
    let t = Touch::from_str("Release 0 0 0").unwrap();
    assert_eq!(t.kind, TouchKind::Release);
    assert_eq!(t.slot, 0);
    assert_eq!(t.position, [0, 0]);
}

#[test]
fn parses_move_line() {
    let t = Touch::from_str("Move 1 400 479").unwrap();
    assert_eq!(t.kind, TouchKind::Move);
    assert_eq!(t.slot, 1);
    assert_eq!(t.position, [400, 479]);
}

#[test]
fn rejects_unknown_kind() {
    assert_eq!(Touch::from_str("Jump 1 2 3"), None);
}

#[test]
fn rejects_too_few_tokens() {
    assert_eq!(Touch::from_str("Move 1 2"), None);
    assert_eq!(Touch::from_str("Move"), None);
    assert_eq!(Touch::from_str(""), None);
    assert_eq!(Touch::from_str("   "), None);
}

#[test]
fn ignores_extra_trailing_tokens() {
    let t = Touch::from_str("Press 1 2 3 what ever").unwrap();
    assert_eq!(t.kind, TouchKind::Press);
    assert_eq!(t.slot, 1);
    assert_eq!(t.position, [2, 3]);
}

#[test]
fn accepts_repeated_and_mixed_whitespace() {
    let t = Touch::from_str("  Press\t7  33\t\t44  ").unwrap();
    assert_eq!(t.kind, TouchKind::Press);
    assert_eq!(t.slot, 7);
    assert_eq!(t.position, [33, 44]);
}

#[test]
fn accepts_trailing_newline() {
    let t = Touch::from_str("Move 0 10 20\n").unwrap();
    assert_eq!(t.kind, TouchKind::Move);
    assert_eq!(t.position, [10, 20]);
}

#[test]
fn accepts_unicode_whitespace_separators() {
    let t = Touch::from_str("Press\u{2003}5\u{00A0}6\u{3000}7").unwrap();
    assert_eq!(t.kind, TouchKind::Press);
    assert_eq!(t.slot, 5);
    assert_eq!(t.position, [6, 7]);
}

#[test]
fn kind_match_is_case_sensitive() {
    assert_eq!(Touch::from_str("press 1 2 3"), None);
    assert_eq!(Touch::from_str("RELEASE 1 2 3"), None);
    assert_eq!(TouchKind::from_str("Press"), Some(TouchKind::Press));
    assert_eq!(TouchKind::from_str("Move"), Some(TouchKind::Move));
    assert_eq!(TouchKind::from_str("Release"), Some(TouchKind::Release));
    assert_eq!(TouchKind::from_str("Pres"), None);
    assert_eq!(TouchKind::from_str("Presss"), None);
    assert_eq!(TouchKind::from_str(""), None);
}

#[test]
fn rejects_non_numeric_coordinates() {
    assert_eq!(Touch::from_str("Press one 2 3"), None);
    assert_eq!(Touch::from_str("Press 1 2 3x"), None);
    assert_eq!(Touch::from_str("Press 1 -2 3"), None);
    assert_eq!(Touch::from_str("Press 1 2.5 3"), None);
}

#[test]
fn accepts_plus_signed_numbers() {
    let t = Touch::from_str("Press +1 +2 +3").unwrap();
    assert_eq!(t.slot, 1);
    assert_eq!(t.position, [2, 3]);
    assert_eq!(Touch::from_str("Press + 2 3"), None);
}

#[test]
fn number_overflow_is_rejected() {
    let t = Touch::from_str("Press 1 4294967295 2").unwrap();
    assert_eq!(t.position, [4294967295, 2]);
    assert_eq!(Touch::from_str("Press 1 4294967296 2"), None);
    assert_eq!(Touch::from_str("Press 99999999999999999999 1 2"), None);
}

#[test]
fn leading_zeros_are_accepted() {
    let t = Touch::from_str("Press 007 0000000000000000120 045").unwrap();
    assert_eq!(t.slot, 7);
    assert_eq!(t.position, [120, 45]);
}
