use isbn::{Isbn, Isbn10, Isbn13, IsbnError, IsbnRange, IsbnRef};
use std::str::FromStr;

/// A range message with a few of the groups of the numbering agency.
const MESSAGE: &str = r#"<?xml version="1.0" encoding="utf-8"?>
<!DOCTYPE ISBNRangeMessage>
<ISBNRangeMessage>
  <MessageSource>International ISBN Agency</MessageSource>
  <MessageSerialNumber>f4e31c01-5e8d-4a1b-9f3e-1c2b3a4d5e6f</MessageSerialNumber>
  <MessageDate>Mon, 7 Jun 2021 17:44:08 BST</MessageDate>
  <EAN.UCCPrefixes>
    <EAN.UCC>
      <Prefix>978</Prefix>
      <Agency>International ISBN Agency</Agency>
      <Rules>
        <Rule><Range>0000000-5999999</Range><Length>1</Length></Rule>
        <Rule><Range>6000000-6499999</Range><Length>3</Length></Rule>
        <Rule><Range>6500000-6599999</Range><Length>2</Length></Rule>
        <Rule><Range>6600000-6999999</Range><Length>0</Length></Rule>
        <Rule><Range>7000000-7999999</Range><Length>1</Length></Rule>
        <Rule><Range>8000000-9499999</Range><Length>2</Length></Rule>
        <Rule><Range>9500000-9899999</Range><Length>3</Length></Rule>
        <Rule><Range>9900000-9989999</Range><Length>4</Length></Rule>
        <Rule><Range>9990000-9999999</Range><Length>5</Length></Rule>
      </Rules>
    </EAN.UCC>
    <EAN.UCC>
      <Prefix>979</Prefix>
      <Agency>International ISBN Agency</Agency>
      <Rules>
        <Rule><Range>0000000-0999999</Range><Length>0</Length></Rule>
        <Rule><Range>1000000-1299999</Range><Length>2</Length></Rule>
        <Rule><Range>1300000-7999999</Range><Length>0</Length></Rule>
        <Rule><Range>8000000-8999999</Range><Length>1</Length></Rule>
        <Rule><Range>9000000-9999999</Range><Length>0</Length></Rule>
      </Rules>
    </EAN.UCC>
  </EAN.UCCPrefixes>
  <RegistrationGroups>
    <Group>
      <Prefix>978-0</Prefix>
      <Agency>English language</Agency>
      <Rules>
        <Rule><Range>0000000-1999999</Range><Length>2</Length></Rule>
        <Rule><Range>2000000-2279999</Range><Length>3</Length></Rule>
        <Rule><Range>2280000-2289999</Range><Length>4</Length></Rule>
        <Rule><Range>2290000-6479999</Range><Length>3</Length></Rule>
        <Rule><Range>6480000-6489999</Range><Length>7</Length></Rule>
        <Rule><Range>6490000-6999999</Range><Length>3</Length></Rule>
        <Rule><Range>7000000-8499999</Range><Length>4</Length></Rule>
        <Rule><Range>8500000-8999999</Range><Length>5</Length></Rule>
        <Rule><Range>9000000-9499999</Range><Length>6</Length></Rule>
        <Rule><Range>9500000-9999999</Range><Length>7</Length></Rule>
      </Rules>
    </Group>
    <Group>
      <Prefix>978-1</Prefix>
      <Agency>English language</Agency>
      <Rules>
        <Rule><Range>0000000-0999999</Range><Length>3</Length></Rule>
        <Rule><Range>1000000-3979999</Range><Length>3</Length></Rule>
        <Rule><Range>3980000-5499999</Range><Length>4</Length></Rule>
        <Rule><Range>5500000-8697999</Range><Length>5</Length></Rule>
        <Rule><Range>8698000-9989999</Range><Length>6</Length></Rule>
        <Rule><Range>9990000-9999999</Range><Length>7</Length></Rule>
      </Rules>
    </Group>
    <Group>
      <Prefix>978-3</Prefix>
      <Agency>German language</Agency>
      <Rules>
        <Rule><Range>0000000-0299999</Range><Length>2</Length></Rule>
        <Rule><Range>0300000-0339999</Range><Length>3</Length></Rule>
        <Rule><Range>0340000-0369999</Range><Length>4</Length></Rule>
        <Rule><Range>0370000-0399999</Range><Length>5</Length></Rule>
        <Rule><Range>0400000-1999999</Range><Length>2</Length></Rule>
        <Rule><Range>2000000-6999999</Range><Length>3</Length></Rule>
        <Rule><Range>7000000-8499999</Range><Length>4</Length></Rule>
        <Rule><Range>8500000-8999999</Range><Length>5</Length></Rule>
        <Rule><Range>9000000-9499999</Range><Length>6</Length></Rule>
        <Rule><Range>9500000-9999999</Range><Length>7</Length></Rule>
      </Rules>
    </Group>
    <Group>
      <Prefix>978-65</Prefix>
      <Agency>Brazil</Agency>
      <Rules>
        <Rule><Range>0000000-0199999</Range><Length>2</Length></Rule>
        <Rule><Range>0200000-2499999</Range><Length>0</Length></Rule>
        <Rule><Range>2500000-2999999</Range><Length>3</Length></Rule>
        <Rule><Range>3000000-3029999</Range><Length>3</Length></Rule>
        <Rule><Range>3030000-4999999</Range><Length>0</Length></Rule>
        <Rule><Range>5000000-5129999</Range><Length>4</Length></Rule>
        <Rule><Range>5130000-9999999</Range><Length>5</Length></Rule>
      </Rules>
    </Group>
    <Group>
      <Prefix>978-89</Prefix>
      <Agency>Korea, Republic</Agency>
      <Rules>
        <Rule><Range>0000000-2499999</Range><Length>2</Length></Rule>
        <Rule><Range>2500000-5499999</Range><Length>3</Length></Rule>
        <Rule><Range>5500000-8499999</Range><Length>4</Length></Rule>
        <Rule><Range>8500000-9499999</Range><Length>5</Length></Rule>
        <Rule><Range>9500000-9699999</Range><Length>6</Length></Rule>
        <Rule><Range>9700000-9899999</Range><Length>5</Length></Rule>
        <Rule><Range>9900000-9999999</Range><Length>3</Length></Rule>
      </Rules>
    </Group>
    <Group>
      <Prefix>979-10</Prefix>
      <Agency>France</Agency>
      <Rules>
        <Rule><Range>0000000-1999999</Range><Length>2</Length></Rule>
        <Rule><Range>2000000-6999999</Range><Length>3</Length></Rule>
        <Rule><Range>7000000-8999999</Range><Length>4</Length></Rule>
        <Rule><Range>9000000-9759999</Range><Length>5</Length></Rule>
        <Rule><Range>9760000-9999999</Range><Length>6</Length></Rule>
      </Rules>
    </Group>
  </RegistrationGroups>
</ISBNRangeMessage>
"#;

fn ranges() -> IsbnRange {
    IsbnRange::from_reader(MESSAGE.as_bytes()).unwrap()
}

/// A table in which every length is seven, with one group under 978.
fn long_ranges() -> IsbnRange {
    let message = "<ISBNRangeMessage>\
        <MessageDate>today</MessageDate>\
        <EAN.UCCPrefixes><EAN.UCC><Prefix>978</Prefix><Agency>All</Agency><Rules>\
        <Rule><Range>0-10000000</Range><Length>7</Length></Rule>\
        </Rules></EAN.UCC></EAN.UCCPrefixes>\
        <RegistrationGroups><Group><Prefix>978-0975229</Prefix><Agency>Long</Agency><Rules>\
        <Rule><Range>8100000-8100001</Range><Length>1</Length></Rule>\
        <Rule><Range>8040000-8040001</Range><Length>7</Length></Rule>\
        </Rules></Group></RegistrationGroups>\
        </ISBNRangeMessage>";
    IsbnRange::from_reader(message.as_bytes()).unwrap()
}

#[test]
fn test_hyphens_no_panic() {
    let ranges = ranges();
    assert!(Isbn::from_str("0-9752298-0-X")
        .unwrap()
        .hyphenate(&ranges)
        .is_ok());
    assert!(Isbn::from_str("978-3-16-148410-0")
        .unwrap()
        .hyphenate(&ranges)
        .is_ok());
}

#[test]
fn test_isbn_range_opens() {
    let range = IsbnRange::from_reader(MESSAGE.as_bytes());
    assert!(range.is_ok());
    let range = range.unwrap();
    assert_eq!(range.source(), Some("International ISBN Agency"));
}

#[test]
fn test_hyphenation() {
    let range = IsbnRange::from_reader(MESSAGE.as_bytes()).unwrap();
    assert!(range
        .hyphenate(&Isbn::from_str("0-9752298-0-X").unwrap())
        .is_ok());
    assert!(range
        .hyphenate(&Isbn::from_str("978-3-16-148410-0").unwrap())
        .is_ok());
}

#[test]
fn isbn10_is_hyphenated_into_its_parts() {
    let ranges = ranges();
    let isbn_10 = Isbn10::new([8, 9, 6, 6, 2, 6, 1, 2, 6, 4]).unwrap();
    assert_eq!(
        isbn_10.hyphenate(&ranges).unwrap().as_str(),
        "89-6626-126-4"
    );
    assert_eq!(
        ranges.hyphenate(&isbn_10).unwrap().as_str(),
        "89-6626-126-4"
    );
    assert_eq!(
        Isbn::_10(isbn_10).hyphenate(&ranges).unwrap().as_str(),
        "89-6626-126-4"
    );
    assert_eq!(
        ranges.hyphenate(&Isbn::_10(isbn_10)).unwrap().as_str(),
        "89-6626-126-4"
    );
    assert_eq!(
        ranges.hyphenate(IsbnRef::_10(&isbn_10)).unwrap().as_str(),
        "89-6626-126-4"
    );
}

#[test]
fn isbn13_is_hyphenated_into_its_parts() {
    let ranges = ranges();
    let isbn_13 = Isbn13::new([9, 7, 8, 1, 4, 9, 2, 0, 6, 7, 6, 6, 5]).unwrap();
    assert_eq!(
        isbn_13.hyphenate(&ranges).unwrap().as_str(),
        "978-1-4920-6766-5"
    );
    assert_eq!(
        ranges.hyphenate(&isbn_13).unwrap().as_str(),
        "978-1-4920-6766-5"
    );
    assert_eq!(
        Isbn::_13(isbn_13).hyphenate(&ranges).unwrap().as_str(),
        "978-1-4920-6766-5"
    );
    assert_eq!(
        ranges.hyphenate(&Isbn::_13(isbn_13)).unwrap().as_str(),
        "978-1-4920-6766-5"
    );
}

#[test]
fn hyphens_stand_where_the_text_had_them() {
    let ranges = ranges();
    for text in [
        "0-306-40615-2",
        "0-684-84328-5",
        "0-8044-2957-X",
        "0-85131-041-9",
        "0-943396-04-2",
        "0-9752298-0-X",
        "1-84356-028-3",
        "1-4920-6766-0",
        "3-16-148410-X",
        "65-59000-00-1",
        "89-6626-126-4",
        "978-0-306-40615-7",
        "978-3-16-148410-0",
        "978-65-59000-00-5",
        "979-10-90636-07-1",
    ] {
        let isbn = Isbn::from_str(text).unwrap();
        assert_eq!(isbn.hyphenate(&ranges).unwrap().as_str(), text);
    }
}

#[test]
fn converted_numeral_is_hyphenated() {
    let ranges = ranges();
    let isbn_13 = Isbn13::new([9, 7, 8, 1, 4, 9, 2, 0, 6, 7, 6, 6, 5]).unwrap();
    let isbn_10 = Isbn10::try_from(isbn_13).unwrap();
    assert_eq!(
        isbn_10,
        Isbn10::new([1, 4, 9, 2, 0, 6, 7, 6, 6, 0]).unwrap()
    );
    assert_eq!(
        isbn_10.hyphenate(&ranges).unwrap().as_str(),
        "1-4920-6766-0"
    );
}

#[test]
fn registration_group_is_named() {
    let ranges = ranges();
    let isbn_10 = Isbn10::new([8, 9, 6, 6, 2, 6, 1, 2, 6, 4]).unwrap();
    let isbn_13 = Isbn13::new([9, 7, 8, 1, 4, 9, 2, 0, 6, 7, 6, 6, 5]).unwrap();
    assert_eq!(isbn_10.registration_group(&ranges), Ok("Korea, Republic"));
    assert_eq!(isbn_13.registration_group(&ranges), Ok("English language"));
    assert_eq!(
        Isbn::_10(isbn_10).registration_group(&ranges),
        Ok("Korea, Republic")
    );
    assert_eq!(
        Isbn::_13(isbn_13).registration_group(&ranges),
        Ok("English language")
    );
    assert_eq!(
        ranges.get_registration_group(&isbn_10),
        Ok("Korea, Republic")
    );
    assert_eq!(
        ranges.get_registration_group(&isbn_13),
        Ok("English language")
    );
    assert_eq!(
        ranges.get_registration_group(&Isbn::_13(isbn_13)),
        Ok("English language")
    );
    assert_eq!(
        ranges.get_registration_group(&Isbn13::from_str("979-10-90636-07-1").unwrap()),
        Ok("France")
    );
    assert_eq!(
        ranges.get_registration_group(&Isbn13::from_str("978-3-16-148410-0").unwrap()),
        Ok("German language")
    );
}

#[test]
fn isbn10_is_looked_up_under_978() {
    let ranges = ranges();
    // 10-90636-07: under 979 this is France, under 978 the first digit
    // alone is the group.
    let isbn_10 = Isbn10::from_str("1090636075").unwrap();
    assert_eq!(isbn_10.registration_group(&ranges), Ok("English language"));
    assert_eq!(
        isbn_10.hyphenate(&ranges).unwrap().as_str(),
        "1-090-63607-5"
    );
}

#[test]
fn reserved_range_is_undefined() {
    let ranges = ranges();
    // Under 978 the numbers from 6600000 are reserved.
    let isbn_10 = Isbn10::from_str("6600000007").unwrap();
    assert_eq!(
        isbn_10.hyphenate(&ranges).err(),
        Some(IsbnError::UndefinedRange)
    );
    assert_eq!(
        isbn_10.registration_group(&ranges),
        Err(IsbnError::UndefinedRange)
    );
    // Under 979 the numbers below 1000000 are reserved.
    let isbn_13 = Isbn13::from_str("9790000000001").unwrap();
    assert_eq!(
        ranges.hyphenate(&isbn_13).err(),
        Some(IsbnError::UndefinedRange)
    );
    // The group is there, the range of the registrant is reserved.
    let isbn_10 = Isbn10::from_str("6502000002").unwrap();
    assert_eq!(
        isbn_10.hyphenate(&ranges).err(),
        Some(IsbnError::UndefinedRange)
    );
    assert_eq!(
        ranges.get_registration_group(&isbn_10),
        Err(IsbnError::UndefinedRange)
    );
}

#[test]
fn unknown_group_is_invalid() {
    let ranges = ranges();
    // No agency prefix 977.
    let isbn_13 = Isbn13::from_str("9770000000003").unwrap();
    assert_eq!(
        isbn_13.hyphenate(&ranges).err(),
        Some(IsbnError::InvalidGroup)
    );
    assert_eq!(
        isbn_13.registration_group(&ranges),
        Err(IsbnError::InvalidGroup)
    );
    // The prefix gives a group of one digit, and there is no group 2.
    let isbn_10 = Isbn10::from_str("2000000002").unwrap();
    assert_eq!(
        isbn_10.hyphenate(&ranges).err(),
        Some(IsbnError::InvalidGroup)
    );
    assert_eq!(
        ranges.get_registration_group(&isbn_10),
        Err(IsbnError::InvalidGroup)
    );
    // Under 979 the group 8 has one digit, and there is no group 979-8.
    let isbn_13 = Isbn13::from_str("9798000000007").unwrap();
    assert_eq!(
        ranges.hyphenate(&isbn_13).err(),
        Some(IsbnError::InvalidGroup)
    );
}

#[test]
fn a_range_ends_before_its_upper_number() {
    let ranges = ranges();
    // 5999998 is below the upper number of the first rule under 978.
    let isbn_10 = Isbn10::from_str("5999998123").unwrap();
    assert_eq!(
        isbn_10.hyphenate(&ranges).err(),
        Some(IsbnError::InvalidGroup)
    );
    // 5999999 is the upper number itself: no rule covers it, so the
    // failure comes from the prefix, not from a group 5 that is missing.
    let isbn_10 = Isbn10::from_str("599999912X").unwrap();
    assert_eq!(
        isbn_10.hyphenate(&ranges).err(),
        Some(IsbnError::InvalidGroup)
    );
    let message = "<ISBNRangeMessage><MessageDate>d</MessageDate>\
        <EAN.UCCPrefixes><EAN.UCC><Prefix>978</Prefix><Agency>A</Agency><Rules>\
        <Rule><Range>5999998-5999999</Range><Length>1</Length></Rule>\
        <Rule><Range>5999999-6000000</Range><Length>0</Length></Rule>\
        </Rules></EAN.UCC></EAN.UCCPrefixes>\
        <RegistrationGroups></RegistrationGroups></ISBNRangeMessage>";
    let ranges = IsbnRange::from_reader(message.as_bytes()).unwrap();
    // Covered by the first rule: the group is then missing.
    assert_eq!(
        Isbn10::from_str("5999998123")
            .unwrap()
            .hyphenate(&ranges)
            .err(),
        Some(IsbnError::InvalidGroup)
    );
    // Covered by the second rule only, which is reserved.
    assert_eq!(
        Isbn10::from_str("599999912X")
            .unwrap()
            .hyphenate(&ranges)
            .err(),
        Some(IsbnError::UndefinedRange)
    );
}

#[test]
fn the_first_rule_that_covers_a_number_decides() {
    let message = "<ISBNRangeMessage><MessageDate>d</MessageDate>\
        <EAN.UCCPrefixes><EAN.UCC><Prefix>978</Prefix><Agency>A</Agency><Rules>\
        <Rule><Range>8000000-9000000</Range><Length>2</Length></Rule>\
        <Rule><Range>0000000-9999999</Range><Length>1</Length></Rule>\
        </Rules></EAN.UCC></EAN.UCCPrefixes>\
        <RegistrationGroups>\
        <Group><Prefix>978-89</Prefix><Agency>Two</Agency><Rules>\
        <Rule><Range>0-9999999</Range><Length>4</Length></Rule></Rules></Group>\
        <Group><Prefix>978-8</Prefix><Agency>One</Agency><Rules>\
        <Rule><Range>0-9999999</Range><Length>4</Length></Rule></Rules></Group>\
        <Group><Prefix>978-1</Prefix><Agency>One</Agency><Rules>\
        <Rule><Range>0-9999999</Range><Length>3</Length></Rule></Rules></Group>\
        </RegistrationGroups></ISBNRangeMessage>";
    let ranges = IsbnRange::from_reader(message.as_bytes()).unwrap();
    let isbn_10 = Isbn10::new([8, 9, 6, 6, 2, 6, 1, 2, 6, 4]).unwrap();
    assert_eq!(isbn_10.registration_group(&ranges), Ok("Two"));
    assert_eq!(
        isbn_10.hyphenate(&ranges).unwrap().as_str(),
        "89-6626-126-4"
    );
    let isbn_10 = Isbn10::from_str("1492067660").unwrap();
    assert_eq!(isbn_10.registration_group(&ranges), Ok("One"));
    assert_eq!(
        isbn_10.hyphenate(&ranges).unwrap().as_str(),
        "1-492-06766-0"
    );
}

#[test]
fn places_past_the_last_digit_count_as_zero() {
    let ranges = long_ranges();
    // The group has seven digits. The number after it is made of the
    // eighth and ninth digit and the check digit, here 8, 0 and ten,
    // and four zeros: 8000000 + 0 + 100000 = 8100000.
    let isbn_10 = Isbn10::from_str("097522980X").unwrap();
    assert_eq!(isbn_10.registration_group(&ranges), Ok("Long"));
    assert_eq!(
        isbn_10.hyphenate(&ranges).unwrap().as_str(),
        "0975229-8-0-X"
    );
    // In the 13-digit form the check digit is 4: 8000000 + 0 + 40000.
    let isbn_13 = Isbn13::from(isbn_10);
    assert_eq!(isbn_13.to_string(), "9780975229804");
    assert_eq!(isbn_13.registration_group(&ranges), Ok("Long"));
}

#[test]
fn a_boundary_past_the_ninth_digit_gets_no_hyphen() {
    let ranges = long_ranges();
    // Group and registrant have seven digits each, and the numeral has
    // nine before its check digit.
    let isbn_13 = Isbn13::from_str("9780975229804").unwrap();
    assert_eq!(
        isbn_13.hyphenate(&ranges).unwrap().as_str(),
        "978-0975229-80-4"
    );
}

#[test]
fn hyphenated_text_is_at_most_seventeen_characters() {
    let ranges = ranges();
    let text = Isbn::from_str("9783161484100")
        .unwrap()
        .hyphenate(&ranges)
        .unwrap();
    assert_eq!(text.len(), 17);
    assert_eq!(text.capacity(), 17);
    let text = Isbn::from_str("097522980X")
        .unwrap()
        .hyphenate(&ranges)
        .unwrap();
    assert_eq!(text.len(), 13);
}

#[test]
fn hyphens_stand_in_order_before_the_check_digit() {
    let tables = [ranges(), long_ranges()];
    for text in [
        "0306406152",
        "0684843285",
        "080442957X",
        "0851310419",
        "0943396042",
        "097522980X",
        "1843560283",
        "1492067660",
        "316148410X",
        "6559000001",
        "8966261264",
        "9780306406157",
        "9783161484100",
        "9786559000005",
        "9791090636071",
        "9780975229804",
    ] {
        let isbn = Isbn::from_str(text).unwrap();
        for table in &tables {
            let Ok(hyphenated) = isbn.hyphenate(table) else {
                continue;
            };
            // The digits before each hyphen, the prefix of 13 digits not
            // counted.
            let after_prefix = if text.len() == 13 {
                &hyphenated[4..]
            } else {
                &hyphenated[..]
            };
            let mut places = Vec::new();
            let mut digits = 0;
            for c in after_prefix.chars() {
                if c == '-' {
                    places.push(digits);
                } else {
                    digits += 1;
                }
            }
            // The last hyphen stands before the check digit.
            assert_eq!(places.pop(), Some(9));
            assert!(!places.is_empty() && places.len() <= 2);
            assert!(places[0] > 0);
            assert!(places.windows(2).all(|pair| pair[0] < pair[1]));
            assert!(places.iter().all(|&place| place < 9));
            // Nothing but hyphens was added.
            let plain: String = hyphenated.chars().filter(|&c| c != '-').collect();
            assert_eq!(plain, text);
        }
    }
}

#[test]
fn table_does_not_change_by_being_read() {
    let ranges = ranges();
    let isbn = Isbn::from_str("978-3-16-148410-0").unwrap();
    let first = isbn.hyphenate(&ranges);
    let second = isbn.hyphenate(&ranges);
    assert_eq!(first, second);
    assert_eq!(
        isbn.registration_group(&ranges),
        isbn.registration_group(&ranges)
    );
}
