use typeid::base32::{encode, DecodeError};
use typeid::id::{Identifier, ParseError};
use typeid::payload::assemble;
use typeid::prefix::PrefixError;

const ALPHABET: &str = "0123456789abcdefghjkmnpqrstvwxyz";

fn assert_canonical_suffix(suffix: &str) {
    assert_eq!(suffix.len(), 26);
    for c in suffix.chars() {
        assert!(ALPHABET.contains(c));
    }
    let first = suffix.chars().next().unwrap();
    assert!(('0'..='7').contains(&first));
}

#[test]
fn generate_user_has_canonical_shape() {
    let id = Identifier::generate("user").unwrap();
    assert_eq!(id.prefix(), "user");
    let s = id.to_string();
    assert_eq!(s.len(), 4 + 1 + 26);
    assert!(s.starts_with("user_"));
    assert_canonical_suffix(&s["user_".len()..]);
}

#[test]
fn generate_empty_prefix_is_bare_suffix() {
    let id = Identifier::generate("").unwrap();
    assert_eq!(id.prefix(), "");
    let s = id.to_string();
    assert_eq!(s.len(), 26);
    assert!(!s.contains('_'));
    assert_canonical_suffix(&s);
}

#[test]
fn generate_rejects_invalid_prefixes() {
    assert_eq!(
        Identifier::generate("2cool").err(),
        Some(PrefixError::InvalidStart)
    );
    assert_eq!(
        Identifier::generate("User").err(),
        Some(PrefixError::InvalidCharacter(0))
    );
    assert_eq!(
        Identifier::generate("a__b").err(),
        Some(PrefixError::InvalidStructure)
    );
}

#[test]
fn parse_undoes_to_string_after_generate() {
    let id = Identifier::generate("user_profile").unwrap();
    let parsed = Identifier::parse(&id.to_string()).unwrap();
    assert_eq!(parsed, id);
    assert_eq!(parsed.prefix(), "user_profile");
    assert_eq!(parsed.payload(), id.payload());
}

#[test]
fn parse_undoes_to_string_for_empty_prefix() {
    let id = Identifier::generate("").unwrap();
    let parsed = Identifier::parse(&id.to_string()).unwrap();
    assert_eq!(parsed, id);
}

#[test]
fn parse_known_string() {
    let id = Identifier::parse("user_00041061050r3gg28a1c60t3gf").unwrap();
    assert_eq!(id.prefix(), "user");
    assert_eq!(id.to_string(), "user_00041061050r3gg28a1c60t3gf");
}

#[test]
fn parse_reports_short_inputs_as_suffix_length() {
    assert_eq!(
        Identifier::parse("user_tooshort").err(),
        Some(ParseError::Suffix(DecodeError::InvalidLength))
    );
    assert_eq!(
        Identifier::parse("").err(),
        Some(ParseError::Suffix(DecodeError::InvalidLength))
    );
}

#[test]
fn parse_demands_the_separating_underscore() {
    // 4 + 26 characters but no separator before the trailing 26.
    assert_eq!(
        Identifier::parse("user00041061050r3gg28a1c60t3gf").err(),
        Some(ParseError::Prefix(PrefixError::InvalidStructure))
    );
}

#[test]
fn parse_validates_the_prefix_half() {
    assert_eq!(
        Identifier::parse("2cool_00041061050r3gg28a1c60t3gf").err(),
        Some(ParseError::Prefix(PrefixError::InvalidStart))
    );
    assert_eq!(
        Identifier::parse("us__er_00041061050r3gg28a1c60t3gf").err(),
        Some(ParseError::Prefix(PrefixError::InvalidStructure))
    );
}

#[test]
fn parse_reports_suffix_character_and_overflow_errors() {
    assert_eq!(
        Identifier::parse("user_00041061050r3gg28a1c60t3gi").err(),
        Some(ParseError::Suffix(DecodeError::InvalidCharacter(25)))
    );
    assert_eq!(
        Identifier::parse("user_80041061050r3gg28a1c60t3gf").err(),
        Some(ParseError::Suffix(DecodeError::Overflow))
    );
}

#[test]
fn equality_needs_both_prefix_and_payload() {
    let a = Identifier::parse("user_00041061050r3gg28a1c60t3gf").unwrap();
    let b = Identifier::parse("user_00041061050r3gg28a1c60t3gf").unwrap();
    let c = Identifier::parse("post_00041061050r3gg28a1c60t3gf").unwrap();
    let d = Identifier::parse("user_00041061050r3gg28a1c60t3gg").unwrap();
    assert_eq!(a, b);
    assert_ne!(a, c);
    assert_ne!(a, d);
}

#[test]
fn strings_of_later_timestamps_sort_later() {
    // Fixed clock readings a tick apart, with random tails chosen to pull
    // against the order; the timestamp must still win.
    let earlier = assemble(1_700_000_000_000, u128::MAX);
    let later = assemble(1_700_000_000_001, 0);
    assert!(earlier < later);
    let s1 = format!("user_{}", encode(earlier));
    let s2 = format!("user_{}", encode(later));
    let id1 = Identifier::parse(&s1).unwrap();
    let id2 = Identifier::parse(&s2).unwrap();
    assert!(id1.to_string() < id2.to_string());
    assert_eq!(id1.prefix(), id2.prefix());
}
