use teetotum_plugins::entry::names;
use teetotum_plugins::text::{decimal, hex, number_text, DIGITS};

fn shown(value: i32) -> String {
    let mut digits = [0u8; DIGITS];
    decimal(value, &mut digits).to_string()
}

#[test]
fn decimal_writes_any_i32() {
    assert_eq!(shown(0), "0");
    assert_eq!(shown(7), "7");
    assert_eq!(shown(-42), "-42");
    assert_eq!(shown(1234567890), "1234567890");
    assert_eq!(shown(i32::MAX), "2147483647");
    assert_eq!(shown(i32::MIN), "-2147483648");
}

#[test]
fn decimal_writes_into_the_end() {
    let mut digits = [b'x'; DIGITS];
    assert_eq!(decimal(-305, &mut digits), "-305");
    assert_eq!(&digits[..], b"xxxxxxx-305");
}

#[test]
fn decimal_leaves_the_front_alone() {
    let mut digits = [0u8; DIGITS];
    assert_eq!(decimal(0, &mut digits), "0");
    assert_eq!(digits, [0, 0, 0, 0, 0, 0, 0, 0, 0, 0, b'0']);
    let mut digits = [0u8; DIGITS];
    assert_eq!(decimal(-42, &mut digits), "-42");
    assert_eq!(&digits[8..], b"-42");
    assert_eq!(digits[..8], [0u8; 8]);
}

#[test]
fn hex_is_two_lowercase_digits_a_byte() {
    assert_eq!(hex(&[]), "");
    assert_eq!(hex(&[0x00, 0x0f, 0xab, 0xff]), "000fabff");
}

#[test]
fn numbers_in_decimal() {
    assert_eq!(number_text(0), "0");
    assert_eq!(number_text(18446744073709551615), "18446744073709551615");
}

#[test]
fn rights_are_named_in_order() {
    assert!(names(0).is_empty());
    assert_eq!(names(0b10011), vec!["HID", "KNOB", "HAPTIC"]);
    assert_eq!(names(0b11111), vec!["HID", "KNOB", "RANDOM", "RADIO", "HAPTIC"]);
}

#[test]
fn decimal_reads_back_as_its_value() {
    for v in [0, 1, -1, 9, 10, -10, 305, -2147483647, i32::MIN, i32::MAX] {
        let text = shown(v);
        assert_eq!(text.parse::<i32>(), Ok(v));
        assert!(!text.starts_with('+'));
        assert!(text == "0" || !text.trim_start_matches('-').starts_with('0'));
    }
}
