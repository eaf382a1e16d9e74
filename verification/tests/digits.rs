use clicklauncher::digits::{chars_of, is_number_string, parse_number, press_id, DIGITS_EXPECTED};

#[test]
fn digits_pass() {
    assert_eq!(is_number_string(String::from("0123456789")), Ok(()));
    assert_eq!(is_number_string(String::from("250")), Ok(()));
}

#[test]
fn empty_argument_passes() {
    assert_eq!(is_number_string(String::new()), Ok(()));
}

#[test]
fn other_characters_do_not_pass() {
    let refused = Err(String::from("Please specify number by ascii digit characters"));
    assert_eq!(DIGITS_EXPECTED, "Please specify number by ascii digit characters");
    for arg in ["12a", "a12", "+1", "-1", " 1", "1 ", "1.0", "/", ":", "\u{0661}", "1\u{00e9}"] {
        assert_eq!(is_number_string(String::from(arg)), refused);
    }
}

#[test]
fn press_id_reads_a_number_of_32_bits() {
    assert_eq!(press_id("5"), Some(5));
    assert_eq!(press_id("0"), Some(0));
    assert_eq!(press_id("007"), Some(7));
    assert_eq!(press_id("+7"), Some(7));
    assert_eq!(press_id("4294967295"), Some(u32::MAX));
    assert_eq!(press_id("00000000004294967295"), Some(u32::MAX));
}

#[test]
fn press_id_refuses_what_is_no_number_of_32_bits() {
    for arg in ["", "+", "-1", "4294967296", "99999999999999999999999", "1 ", "x", "+-1", "1+"] {
        assert_eq!(press_id(arg), None);
    }
}

#[test]
fn number_is_held_to_its_bound() {
    let chars: Vec<char> = "100".chars().collect();
    assert_eq!(parse_number(&chars, 100), Some(100));
    assert_eq!(parse_number(&chars, 99), None);
    assert_eq!(parse_number(&chars, u64::MAX), Some(100));
    let zero: Vec<char> = "0".chars().collect();
    assert_eq!(parse_number(&zero, 0), Some(0));
    let one: Vec<char> = "1".chars().collect();
    assert_eq!(parse_number(&one, 0), None);
    let top: Vec<char> = "18446744073709551615".chars().collect();
    assert_eq!(parse_number(&top, u64::MAX), Some(u64::MAX));
    let over: Vec<char> = "18446744073709551616".chars().collect();
    assert_eq!(parse_number(&over, u64::MAX), None);
}

#[test]
fn chars_come_one_by_one() {
    assert_eq!(chars_of(""), Vec::<char>::new());
    assert_eq!(chars_of("a\u{00e9}\u{4e16}"), vec!['a', '\u{00e9}', '\u{4e16}']);
}
