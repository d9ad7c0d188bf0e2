use dds_registry::text::is_number;
use dds_registry::text::signed_text;
use dds_registry::text::NumberText;
use dds_registry::text::unsigned_text;

#[test]
fn unsigned_numbers_in_decimal_digits() {
    assert_eq!(unsigned_text(0), "0");
    assert_eq!(unsigned_text(7), "7");
    assert_eq!(unsigned_text(10), "10");
    assert_eq!(unsigned_text(3000), "3000");
    assert_eq!(unsigned_text(u64::MAX), "18446744073709551615");
}

#[test]
fn signed_numbers_in_decimal_digits() {
    assert_eq!(signed_text(0), "0");
    assert_eq!(signed_text(60), "60");
    assert_eq!(signed_text(-1), "-1");
    assert_eq!(signed_text(-887220), "-887220");
    assert_eq!(signed_text(i64::MAX), "9223372036854775807");
    assert_eq!(signed_text(i64::MIN), "-9223372036854775808");
}

#[test]
fn push_decimal_appends_to_what_is_there() {
    let mut text = String::from("n=");
    dds_registry::text::push_decimal(&mut text, 405);
    assert_eq!(text, "n=405");
}

#[test]
fn the_decimal_text_of_an_integer_is_a_number() {
    for text in ["0", "5", "10", "-5", "-10", "907", "123456789012345678901234567890", "-340282366920938463463374607431768211456"] {
        assert!(is_number(text), "{}", text);
        let number = NumberText::parse(text.to_string()).unwrap();
        assert_eq!(number.as_text(), text);
        assert_eq!(number.duplicate(), number);
    }
}

#[test]
fn every_other_text_is_refused() {
    for text in [
        "", "-", "abc", "007", "00", "-0", "-05", "+5", "1.5", "1e3", " 5", "5 ", "12a", "--5", "5-", "0x10",
        "\u{ff15}", "5\u{e9}",
    ] {
        assert!(!is_number(text), "{}", text);
        assert_eq!(NumberText::parse(text.to_string()), None);
    }
}

#[test]
fn numbers_of_machine_integers() {
    assert_eq!(NumberText::of_unsigned(0).as_text(), "0");
    assert_eq!(NumberText::of_unsigned(u64::MAX).as_text(), "18446744073709551615");
    assert_eq!(NumberText::of_signed(i64::MIN).as_text(), "-9223372036854775808");
    assert_eq!(NumberText::of_signed(-7).as_text(), "-7");
    assert_eq!(NumberText::parse("-7".to_string()), Some(NumberText::of_signed(-7)));
}
