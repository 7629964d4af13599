use lib::runtime::{
    error_message, error_shows_value, is_array, sprint_array, sprint_scalar, unsigned_to_signed, value_kind, SnakeVal,
    ValueKind,
};

#[test]
fn words_read_as_signed_numbers() {
    assert_eq!(unsigned_to_signed(0), 0);
    assert_eq!(unsigned_to_signed(5), 5);
    assert_eq!(unsigned_to_signed(u64::MAX), -1);
    assert_eq!(unsigned_to_signed(0x8000_0000_0000_0000), i64::MIN);
    assert_eq!(unsigned_to_signed(0x7FFF_FFFF_FFFF_FFFF), i64::MAX);
}

#[test]
fn arrays_are_told_by_their_low_bits() {
    assert!(is_array(SnakeVal(0x1001)));
    assert!(!is_array(SnakeVal(0x1003)));
    assert!(!is_array(SnakeVal(0x1005)));
    assert!(!is_array(SnakeVal(0x1000)));
}

#[test]
fn kinds_of_values() {
    assert_eq!(value_kind(SnakeVal(14)), ValueKind::Number(7));
    assert_eq!(value_kind(SnakeVal((-6i64) as u64)), ValueKind::Number(-3));
    assert_eq!(value_kind(SnakeVal(0xFFFF_FFFF_FFFF_FFFF)), ValueKind::True);
    assert_eq!(value_kind(SnakeVal(0x7FFF_FFFF_FFFF_FFFF)), ValueKind::False);
    assert_eq!(value_kind(SnakeVal(0x2003)), ValueKind::Closure);
    assert_eq!(value_kind(SnakeVal(0x2001)), ValueKind::Array(0x2000));
    assert_eq!(value_kind(SnakeVal(0x3f80_0000_0000_0005)), ValueKind::Float(0x3f80_0000));
    assert_eq!(value_kind(SnakeVal(0x7)), ValueKind::Invalid);
}

#[test]
fn numbers_round_trip_through_their_encoding() {
    for n in [0i64, 1, -1, 42, -42, (1i64 << 62) - 1, -(1i64 << 62)] {
        assert_eq!(value_kind(SnakeVal((n << 1) as u64)), ValueKind::Number(n));
    }
}

#[test]
fn scalar_renderings() {
    assert_eq!(sprint_scalar(SnakeVal(14)), Some("7".to_string()));
    assert_eq!(sprint_scalar(SnakeVal((-20i64) as u64)), Some("-10".to_string()));
    assert_eq!(sprint_scalar(SnakeVal(0xFFFF_FFFF_FFFF_FFFF)), Some("true".to_string()));
    assert_eq!(sprint_scalar(SnakeVal(0x7FFF_FFFF_FFFF_FFFF)), Some("false".to_string()));
    assert_eq!(sprint_scalar(SnakeVal(0x2003)), Some("<closure>".to_string()));
    assert_eq!(sprint_scalar(SnakeVal(0xabc7)), Some("Invalid snake value 0xabc7".to_string()));
    assert_eq!(sprint_scalar(SnakeVal(0x2001)), None);
    assert_eq!(sprint_scalar(SnakeVal(0x3f80_0000_0000_0005)), None);
}

#[test]
fn array_renderings() {
    let parts = vec!["1".to_string(), "true".to_string(), "[2]".to_string()];
    assert_eq!(sprint_array(&parts, false), "[1, true, [2]]");
    assert_eq!(sprint_array(&vec![], false), "[]");
    assert_eq!(sprint_array(&vec![], true), "[<loop>]");
    assert_eq!(sprint_array(&vec!["1".to_string()], true), "[1, <loop>]");
}

#[test]
fn error_messages() {
    assert_eq!(error_message(1, "true"), "arithmetic expected a number, but got true");
    assert_eq!(error_message(2, "false"), "comparison expected a number, but got false");
    assert_eq!(error_message(3, "5"), "overflow, 5");
    assert_eq!(error_message(4, "3"), "if expected a boolean, but got 3");
    assert_eq!(error_message(5, "3"), "logic expected a boolean, but got 3");
    assert_eq!(error_message(6, "true"), "index not a number, but got true");
    assert_eq!(error_message(7, "9"), "index out of bounds, but got 9");
    assert_eq!(error_message(8, "1"), "indexed into non-array, but got 1");
    assert_eq!(error_message(9, "1"), "length called with non-array, but got 1");
    assert_eq!(error_message(10, "1"), "called a non-function, but got 1");
    assert_eq!(error_message(11, "2"), "wrong number of arguments, but got 2");
    assert_eq!(error_message(12, "1"), "arithmetic expected a float, but got 1");
    assert_eq!(error_message(13, "1"), "comparison expected a float, but got 1");
    assert_eq!(error_message(14, "1"), "overflow");
    assert_eq!(error_message(99, "1"), "unknown error code 99");
    assert!(error_shows_value(1));
    assert!(!error_shows_value(14));
    assert!(!error_shows_value(0));
}
