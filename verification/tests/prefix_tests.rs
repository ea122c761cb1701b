use typeid::prefix::{validate, PrefixError};

#[test]
fn empty_prefix_is_valid() {
    let r = validate("");
    assert!(r.is_ok());
    assert_eq!(r.unwrap().as_str(), "");
}

#[test]
fn plain_word_is_valid() {
    let r = validate("user");
    assert!(r.is_ok());
    assert_eq!(r.unwrap().as_str(), "user");
}

#[test]
fn inner_underscore_is_valid() {
    let r = validate("user_profile");
    assert!(r.is_ok());
    assert_eq!(r.unwrap().as_str(), "user_profile");
}

#[test]
fn sixty_three_letters_is_valid() {
    let s = "a".repeat(63);
    assert!(validate(&s).is_ok());
}

#[test]
fn sixty_four_letters_is_too_long() {
    let s = "a".repeat(64);
    assert_eq!(validate(&s).err(), Some(PrefixError::TooLong));
}

#[test]
fn uppercase_letter_is_invalid_character() {
    assert_eq!(validate("User").err(), Some(PrefixError::InvalidCharacter(0)));
}

#[test]
fn uppercase_inside_reports_its_position() {
    assert_eq!(validate("uSer").err(), Some(PrefixError::InvalidCharacter(1)));
}

#[test]
fn digit_inside_reports_its_position() {
    assert_eq!(validate("user2").err(), Some(PrefixError::InvalidCharacter(4)));
}

#[test]
fn leading_digit_is_invalid_start() {
    assert_eq!(validate("2cool").err(), Some(PrefixError::InvalidStart));
}

#[test]
fn leading_underscore_is_invalid_start() {
    assert_eq!(validate("_abc").err(), Some(PrefixError::InvalidStart));
}

#[test]
fn trailing_underscore_is_invalid_structure() {
    assert_eq!(validate("abc_").err(), Some(PrefixError::InvalidStructure));
}

#[test]
fn double_underscore_is_invalid_structure() {
    assert_eq!(validate("a__b").err(), Some(PrefixError::InvalidStructure));
}
