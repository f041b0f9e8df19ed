use isbn::digits::{convert_isbn10_check, convert_isbn_body, digit_of, group_prefix, segment};
use isbn::fields::{
    chars_of, parse_agency_prefix, parse_group_key, parse_length, parse_range, parse_u32,
};
use isbn::message::IsbnRangeError;
use isbn::xml::name_is;

#[test]
fn digits_are_written_as_characters() {
    let written: Vec<char> = (0..10).map(convert_isbn_body).collect();
    assert_eq!(
        written,
        vec!['0', '1', '2', '3', '4', '5', '6', '7', '8', '9']
    );
    let written: Vec<char> = (0..12).map(convert_isbn10_check).collect();
    assert_eq!(
        written,
        vec!['0', '1', '2', '3', '4', '5', '6', '7', '8', '9', 'X', 'X']
    );
    assert_eq!(convert_isbn10_check(255), 'X');
}

#[test]
fn characters_are_read_as_digits() {
    let read: Vec<Option<u8>> = "0123456789".chars().map(digit_of).collect();
    let expected: Vec<Option<u8>> = (0..10).map(Some).collect();
    assert_eq!(read, expected);
    for c in ['/', ':', 'X', 'a', ' ', '-', '٣', '３'] {
        assert_eq!(digit_of(c), None);
    }
}

#[test]
fn window_is_seven_digits_as_a_number() {
    let digits = [8, 9, 6, 6, 2, 6, 1, 2, 6, 4];
    assert_eq!(segment(&digits, 0), 8966261);
    assert_eq!(segment(&digits, 2), 6626126);
    assert_eq!(segment(&digits, 3), 6261264);
    // Past the end the digits are zeros.
    assert_eq!(segment(&digits, 4), 2612640);
    assert_eq!(segment(&digits, 7), 2640000);
    assert_eq!(segment(&digits, 9), 4000000);
    assert_eq!(segment(&digits, 10), 0);
    assert_eq!(segment(&digits, usize::MAX), 0);
    assert_eq!(segment(&[], 0), 0);
    // A check digit of ten counts as ten.
    assert_eq!(segment(&[0, 9, 7, 5, 2, 2, 9, 8, 0, 10], 7), 8100000);
    assert_eq!(segment(&[255; 7], 0), 283333305);
}

#[test]
fn group_is_packed_four_bits_to_a_digit() {
    let digits = [9, 7, 8, 9, 9, 9, 2, 1, 5, 8, 1, 0, 7];
    assert_eq!(group_prefix(&digits, 3, 0), 0);
    assert_eq!(group_prefix(&digits, 3, 1), 0x9);
    assert_eq!(group_prefix(&digits, 3, 5), 0x99921);
    assert_eq!(group_prefix(&digits, 3, 7), 0x9992158);
    assert_eq!(group_prefix(&digits, 0, 3), 0x978);
    // Zeros at the front do not show.
    assert_eq!(group_prefix(&[0, 0, 1], 0, 3), 0x1);
}

#[test]
fn characters_of_a_string_are_its_characters() {
    assert_eq!(chars_of("a-é１"), vec!['a', '-', 'é', '１']);
    assert_eq!(chars_of(""), Vec::<char>::new());
}

#[test]
fn numbers_are_read_in_decimal() {
    let read = |s: &str| {
        let chars = chars_of(s);
        parse_u32(&chars, 0, chars.len())
    };
    assert_eq!(read("0"), Some(0));
    assert_eq!(read("0000000"), Some(0));
    assert_eq!(read("5999999"), Some(5999999));
    assert_eq!(read("+42"), Some(42));
    assert_eq!(read("4294967295"), Some(u32::MAX));
    assert_eq!(read("0004294967295"), Some(u32::MAX));
    assert_eq!(read("4294967296"), None);
    assert_eq!(read("42949672950"), None);
    assert_eq!(read(""), None);
    assert_eq!(read("+"), None);
    assert_eq!(read("-1"), None);
    assert_eq!(read("++1"), None);
    assert_eq!(read("1+"), None);
    assert_eq!(read(" 1"), None);
    assert_eq!(read("1a"), None);
    // As the standard library reads them.
    for s in [
        "0",
        "007",
        "+42",
        "4294967295",
        "4294967296",
        "",
        "+",
        "-1",
        "1 ",
        "１",
    ] {
        assert_eq!(read(s), s.parse::<u32>().ok(), "{:?}", s);
    }
    // A part of the characters.
    let chars = chars_of("12-345");
    assert_eq!(parse_u32(&chars, 0, 2), Some(12));
    assert_eq!(parse_u32(&chars, 3, 6), Some(345));
    assert_eq!(parse_u32(&chars, 2, 6), None);
    assert_eq!(parse_u32(&chars, 3, 3), None);
}

#[test]
fn range_is_read_from_its_text() {
    assert!(matches!(parse_range("0000000-5999999"), Ok((0, 5999999))));
    assert!(matches!(
        parse_range("6000000-6499999"),
        Ok((6000000, 6499999))
    ));
    assert!(matches!(parse_range("7-3"), Ok((7, 3))));
    assert!(matches!(
        parse_range("5999999"),
        Err(IsbnRangeError::NoDashInRange)
    ));
    assert!(matches!(
        parse_range("1-2-3"),
        Err(IsbnRangeError::BadRange)
    ));
    assert!(matches!(parse_range("x-2"), Err(IsbnRangeError::BadRange)));
}

#[test]
fn length_is_read_from_its_text() {
    assert!(matches!(parse_length("0"), Ok(None)));
    assert!(matches!(parse_length("1"), Ok(Some(1))));
    assert!(matches!(parse_length("7"), Ok(Some(7))));
    assert!(matches!(
        parse_length("8"),
        Err(IsbnRangeError::LengthTooLarge)
    ));
    assert!(matches!(
        parse_length("10"),
        Err(IsbnRangeError::BadLengthString)
    ));
    assert!(matches!(
        parse_length(""),
        Err(IsbnRangeError::BadLengthString)
    ));
}

#[test]
fn prefixes_are_packed_four_bits_to_a_digit() {
    assert!(matches!(parse_agency_prefix("978"), Ok(0x978)));
    assert!(matches!(parse_agency_prefix("979"), Ok(0x979)));
    assert!(matches!(parse_agency_prefix("9"), Ok(0x9)));
    assert!(matches!(parse_agency_prefix(""), Ok(0)));
    assert!(matches!(
        parse_agency_prefix("9789"),
        Err(IsbnRangeError::PrefixTooLong)
    ));
    assert!(matches!(
        parse_agency_prefix("9a"),
        Err(IsbnRangeError::InvalidPrefixChar)
    ));
    assert!(matches!(parse_group_key("978-0"), Ok((0x978, 0x0))));
    assert!(matches!(parse_group_key("978-89"), Ok((0x978, 0x89))));
    assert!(matches!(parse_group_key("978-99921"), Ok((0x978, 0x99921))));
    assert!(matches!(parse_group_key("979-8"), Ok((0x979, 0x8))));
    assert!(matches!(parse_group_key("978-"), Ok((0x978, 0))));
    assert!(matches!(parse_group_key("97"), Ok((0x97, 0))));
    // More than eight digits push the first ones out.
    assert!(matches!(
        parse_group_key("978-123456789"),
        Ok((0x978, 0x23456789))
    ));
    assert!(matches!(
        parse_group_key("9789"),
        Err(IsbnRangeError::PrefixTooLong)
    ));
    assert!(matches!(
        parse_group_key("978-8x"),
        Err(IsbnRangeError::InvalidPrefixChar)
    ));
    assert!(matches!(
        parse_group_key("9x8-8"),
        Err(IsbnRangeError::InvalidPrefixChar)
    ));
}

#[test]
fn tag_names_are_compared_by_their_bytes() {
    assert!(name_is(&b"Rule".to_vec(), "Rule"));
    assert!(name_is(&b"EAN.UCC".to_vec(), "EAN.UCC"));
    assert!(name_is(&Vec::new(), ""));
    assert!(!name_is(&b"Rule".to_vec(), "Rules"));
    assert!(!name_is(&b"Rules".to_vec(), "Rule"));
    assert!(!name_is(&b"rule".to_vec(), "Rule"));
    assert!(!name_is(&"é".as_bytes().to_vec(), "é"));
    assert!(name_is(&vec![0xe9], "é"));
}
