use isbn::{Isbn, Isbn10, Isbn13, IsbnError, IsbnRef};
use std::collections::HashSet;
use std::str::FromStr;

#[test]
fn test_isbns_do_not_accept_larger_digits() {
    let mut a = [10; 10];
    // Everything except check digit must be <= 9.
    a[9] = Isbn10::calculate_check_digit(&a);
    assert!(Isbn10::new(a).is_err());
    // Check digit can be 10.
    assert!(Isbn10::new([0, 9, 7, 5, 2, 2, 9, 8, 0, 10]).is_ok());
    // Check digits which are larger than 10 are implicitly handled by
    // the fact that calculate_check_digit returns a number from 0 to 10.
    let mut a = [10; 13];
    a[12] = Isbn13::calculate_check_digit(&a);
    assert!(Isbn13::new(a).is_err());
}

#[test]
fn new_isbn10_reports_which_rule_is_broken() {
    assert!(Isbn10::new([8, 9, 6, 6, 2, 6, 1, 2, 6, 4]).is_ok());
    assert_eq!(
        Isbn10::new([8, 9, 6, 6, 2, 6, 1, 2, 6, 5]),
        Err(IsbnError::InvalidChecksum)
    );
    assert_eq!(
        Isbn10::new([10, 9, 6, 6, 2, 6, 1, 2, 6, 4]),
        Err(IsbnError::DigitTooLarge)
    );
    assert_eq!(
        Isbn10::new([8, 9, 6, 6, 2, 6, 1, 2, 10, 4]),
        Err(IsbnError::DigitTooLarge)
    );
    assert_eq!(
        Isbn10::new([8, 9, 6, 6, 2, 6, 1, 2, 6, 11]),
        Err(IsbnError::DigitTooLarge)
    );
    // Bounds are looked at before the checksum.
    assert_eq!(Isbn10::new([255; 10]), Err(IsbnError::DigitTooLarge));
}

#[test]
fn new_isbn13_reports_which_rule_is_broken() {
    assert!(Isbn13::new([9, 7, 8, 1, 4, 9, 2, 0, 6, 7, 6, 6, 5]).is_ok());
    assert_eq!(
        Isbn13::new([9, 7, 8, 1, 4, 9, 2, 0, 6, 7, 6, 6, 6]),
        Err(IsbnError::InvalidChecksum)
    );
    assert_eq!(
        Isbn13::new([9, 7, 8, 1, 4, 9, 2, 0, 6, 7, 6, 6, 10]),
        Err(IsbnError::DigitTooLarge)
    );
    assert_eq!(
        Isbn13::new([10, 7, 8, 1, 4, 9, 2, 0, 6, 7, 6, 6, 5]),
        Err(IsbnError::DigitTooLarge)
    );
    assert_eq!(Isbn13::new([255; 13]), Err(IsbnError::DigitTooLarge));
}

#[test]
fn check_digit_of_isbn10_follows_the_formula() {
    // 0-306-40615-?: the weighted sum is 130, 130 mod 11 is 9, the digit is 2.
    assert_eq!(
        Isbn10::calculate_check_digit(&[0, 3, 0, 6, 4, 0, 6, 1, 5, 0]),
        2
    );
    // The tenth digit is not read.
    assert_eq!(
        Isbn10::calculate_check_digit(&[0, 3, 0, 6, 4, 0, 6, 1, 5, 9]),
        2
    );
    // A sum that 11 divides gives 0.
    assert_eq!(Isbn10::calculate_check_digit(&[0; 10]), 0);
    // 0-9752298-0-?: the digit is ten.
    assert_eq!(
        Isbn10::calculate_check_digit(&[0, 9, 7, 5, 2, 2, 9, 8, 0, 0]),
        10
    );
    // No overflow with the largest digits: 255 * 54 = 13770, 13770 mod 11 = 9.
    assert_eq!(Isbn10::calculate_check_digit(&[255; 10]), 2);
}

#[test]
fn check_digit_of_isbn13_follows_the_formula() {
    // 978-0-306-40615-?: the weighted sum is 93, the digit is 7.
    assert_eq!(
        Isbn13::calculate_check_digit(&[9, 7, 8, 0, 3, 0, 6, 4, 0, 6, 1, 5, 0]),
        7
    );
    // The thirteenth digit is not read.
    assert_eq!(
        Isbn13::calculate_check_digit(&[9, 7, 8, 0, 3, 0, 6, 4, 0, 6, 1, 5, 3]),
        7
    );
    // A sum that 10 divides gives 0.
    assert_eq!(Isbn13::calculate_check_digit(&[0; 13]), 0);
    // No overflow with the largest digits: 255 * 24 = 6120, the digit is 0.
    assert_eq!(Isbn13::calculate_check_digit(&[255; 13]), 0);
    assert_eq!(Isbn13::calculate_check_digit(&[10; 13]), 0);
}

#[test]
fn stored_check_digit_is_the_computed_one() {
    let digits10 = [8, 9, 6, 6, 2, 6, 1, 2, 6, 4];
    assert!(Isbn10::new(digits10).is_ok());
    assert_eq!(Isbn10::calculate_check_digit(&digits10), digits10[9]);
    let digits13 = [9, 7, 8, 3, 1, 6, 1, 4, 8, 4, 1, 0, 0];
    assert!(Isbn13::new(digits13).is_ok());
    assert_eq!(Isbn13::calculate_check_digit(&digits13), digits13[12]);
}

#[test]
fn isbn13_converts_to_isbn10_under_978() {
    let isbn_13 = Isbn13::new([9, 7, 8, 1, 4, 9, 2, 0, 6, 7, 6, 6, 5]).unwrap();
    assert_eq!(Isbn10::try_from(isbn_13), "1-4920-6766-0".parse());
    assert_eq!(
        Isbn10::try_from(isbn_13),
        Isbn10::new([1, 4, 9, 2, 0, 6, 7, 6, 6, 0])
    );
    assert_eq!(Isbn10::try_from(isbn_13).unwrap().to_string(), "1492067660");
}

#[test]
fn isbn13_under_another_prefix_does_not_convert() {
    // 979-10-90636-07-1
    let isbn_13 = Isbn13::new([9, 7, 9, 1, 0, 9, 0, 6, 3, 6, 0, 7, 1]).unwrap();
    assert_eq!(Isbn10::try_from(isbn_13), Err(IsbnError::InvalidConversion));
    // Each of the three digits counts.
    let isbn_13 = Isbn13::from_str("9680000000005").unwrap();
    assert_eq!(Isbn10::try_from(isbn_13), Err(IsbnError::InvalidConversion));
    let isbn_13 = Isbn13::from_str("8780000000003").unwrap();
    assert_eq!(Isbn10::try_from(isbn_13), Err(IsbnError::InvalidConversion));
}

#[test]
fn isbn10_converts_to_isbn13() {
    let isbn_10 = Isbn10::new([9, 9, 7, 1, 5, 0, 2, 1, 0, 0]).unwrap();
    assert_eq!(
        Isbn13::from(isbn_10),
        Isbn13::new([9, 7, 8, 9, 9, 7, 1, 5, 0, 2, 1, 0, 2]).unwrap()
    );
    // The X of the 10-digit form does not go over.
    let isbn_10 = Isbn10::new([0, 9, 7, 5, 2, 2, 9, 8, 0, 10]).unwrap();
    assert_eq!(Isbn13::from(isbn_10).to_string(), "9780975229804");
}

#[test]
fn conversion_there_and_back_is_the_same_numeral() {
    for text in [
        "0-306-40615-2",
        "99921-58-10-7",
        "0-8044-2957-X",
        "0-9752298-0-X",
        "89-6626-126-4",
    ] {
        let isbn_10 = Isbn10::from_str(text).unwrap();
        let isbn_13 = Isbn13::from(isbn_10);
        assert_eq!(&isbn_13.to_string()[..3], "978");
        assert_eq!(Isbn10::try_from(isbn_13), Ok(isbn_10));
    }
}

#[test]
fn numerals_are_written_without_separators() {
    let isbn_10 = Isbn10::new([8, 9, 6, 6, 2, 6, 1, 2, 6, 4]).unwrap();
    assert_eq!(isbn_10.to_string(), "8966261264");
    let isbn_10 = Isbn10::new([0, 9, 7, 5, 2, 2, 9, 8, 0, 10]).unwrap();
    assert_eq!(isbn_10.to_string(), "097522980X");
    let isbn_13 = Isbn13::new([9, 7, 8, 1, 4, 9, 2, 0, 6, 7, 6, 6, 5]).unwrap();
    assert_eq!(isbn_13.to_string(), "9781492067665");
}

#[test]
fn written_and_read_again_is_the_same_numeral() {
    for digits in [
        [8, 9, 6, 6, 2, 6, 1, 2, 6, 4],
        [0, 9, 7, 5, 2, 2, 9, 8, 0, 10],
        [0, 0, 0, 0, 0, 0, 0, 0, 0, 0],
        [9, 9, 9, 9, 9, 9, 9, 9, 9, 9],
    ] {
        let isbn_10 = Isbn10::new(digits).unwrap();
        assert_eq!(Isbn10::from_str(&isbn_10.to_string()), Ok(isbn_10));
        assert_eq!(Isbn::from_str(&isbn_10.to_string()), Ok(Isbn::_10(isbn_10)));
    }
    let isbn_13 = Isbn13::new([9, 7, 8, 3, 1, 6, 1, 4, 8, 4, 1, 0, 0]).unwrap();
    assert_eq!(Isbn13::from_str(&isbn_13.to_string()), Ok(isbn_13));
    assert_eq!(Isbn::from_str(&isbn_13.to_string()), Ok(Isbn::_13(isbn_13)));
}

#[test]
fn numerals_give_their_digits() {
    let isbn_10 = Isbn10::from_str("0-9752298-0-X").unwrap();
    assert_eq!(isbn_10.digits(), &[0, 9, 7, 5, 2, 2, 9, 8, 0, 10]);
    let isbn_13 = Isbn13::from_str("978-3-16-148410-0").unwrap();
    assert_eq!(isbn_13.digits(), &[9, 7, 8, 3, 1, 6, 1, 4, 8, 4, 1, 0, 0]);
    assert_eq!(Isbn::_10(isbn_10).to_string(), "097522980X");
    assert_eq!(Isbn::_13(isbn_13).to_string(), "9783161484100");
}

#[test]
fn numerals_compare_by_their_digits() {
    let a = Isbn10::new([0, 3, 0, 6, 4, 0, 6, 1, 5, 2]).unwrap();
    let b = Isbn10::new([8, 9, 6, 6, 2, 6, 1, 2, 6, 4]).unwrap();
    assert_eq!(a, Isbn10::from_str("0-306-40615-2").unwrap());
    assert_ne!(a, b);
    assert!(a < b);
    let mut seen = HashSet::new();
    assert!(seen.insert(a));
    assert!(!seen.insert(Isbn10::from_str("0306406152").unwrap()));
    assert!(seen.insert(b));
    let c = Isbn13::new([9, 7, 8, 0, 3, 0, 6, 4, 0, 6, 1, 5, 7]).unwrap();
    let d = Isbn13::new([9, 7, 8, 3, 1, 6, 1, 4, 8, 4, 1, 0, 0]).unwrap();
    assert!(c < d);
    assert_ne!(Isbn::_10(a), Isbn::_13(c));
}

#[test]
fn numerals_of_either_form_wrap_the_two_forms() {
    let isbn_10 = Isbn10::new([8, 9, 6, 6, 2, 6, 1, 2, 6, 4]).unwrap();
    let isbn_13 = Isbn13::new([9, 7, 8, 1, 4, 9, 2, 0, 6, 7, 6, 6, 5]).unwrap();
    assert_eq!(Isbn::from(isbn_10), Isbn::_10(isbn_10));
    assert_eq!(Isbn::from(isbn_13), Isbn::_13(isbn_13));
    assert_eq!(IsbnRef::from(&isbn_10), IsbnRef::_10(&isbn_10));
    assert_eq!(IsbnRef::from(&isbn_13), IsbnRef::_13(&isbn_13));
    assert_eq!(IsbnRef::from(&Isbn::_10(isbn_10)), IsbnRef::_10(&isbn_10));
    assert_eq!(IsbnRef::from(&Isbn::_13(isbn_13)), IsbnRef::_13(&isbn_13));
}

#[test]
fn errors_are_written_as_sentences() {
    assert_eq!(
        IsbnError::InvalidLength.to_string(),
        "The given string is too short or too long to be an ISBN."
    );
    assert_eq!(
        IsbnError::InvalidDigit.to_string(),
        "Encountered an invalid digit while parsing."
    );
    assert_eq!(
        IsbnError::InvalidGroup.to_string(),
        "Encountered an invalid ISBN registration group."
    );
    assert_eq!(
        IsbnError::UndefinedRange.to_string(),
        "Encountered a range not defined for use at this time."
    );
    assert_eq!(
        IsbnError::InvalidChecksum.to_string(),
        "Failed to validate checksum."
    );
    assert_eq!(
        IsbnError::InvalidConversion.to_string(),
        "Failed to convert to ISBN10."
    );
    assert_eq!(
        IsbnError::DigitTooLarge.to_string(),
        "A supplied digit was larger than 9, or the ISBN10 check digit was larger than 10."
    );
}
