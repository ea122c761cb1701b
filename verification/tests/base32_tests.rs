use typeid::base32::{decode, encode, DecodeError};

#[test]
fn encode_zero_is_all_zeros() {
    assert_eq!(encode(0), "00000000000000000000000000");
}

#[test]
fn encode_one_ends_in_one() {
    assert_eq!(encode(1), "00000000000000000000000001");
}

#[test]
fn encode_thirty_one_ends_in_z() {
    assert_eq!(encode(31), "0000000000000000000000000z");
}

#[test]
fn encode_thirty_two_carries() {
    assert_eq!(encode(32), "00000000000000000000000010");
}

#[test]
fn encode_max_is_seven_then_zs() {
    assert_eq!(encode(u128::MAX), "7zzzzzzzzzzzzzzzzzzzzzzzzz");
}

#[test]
fn decode_undoes_encode() {
    for v in [
        0u128,
        1,
        31,
        32,
        0xDEAD_BEEF,
        1u128 << 80,
        (1u128 << 127) | 12345,
        u128::MAX,
    ] {
        assert_eq!(decode(&encode(v)), Ok(v));
    }
}

#[test]
fn encode_undoes_decode() {
    for s in [
        "00000000000000000000000000",
        "00041061050r3gg28a1c60t3gf",
        "7zzzzzzzzzzzzzzzzzzzzzzzzz",
        "0123456789abcdefghjkmnpqrs",
    ] {
        let v = decode(s).unwrap();
        assert_eq!(encode(v), s);
    }
}

#[test]
fn twenty_five_characters_is_invalid_length() {
    assert_eq!(decode(&"0".repeat(25)), Err(DecodeError::InvalidLength));
}

#[test]
fn twenty_seven_characters_is_invalid_length() {
    assert_eq!(decode(&"0".repeat(27)), Err(DecodeError::InvalidLength));
}

#[test]
fn empty_string_is_invalid_length() {
    assert_eq!(decode(""), Err(DecodeError::InvalidLength));
}

#[test]
fn ambiguous_letters_are_invalid_characters() {
    assert_eq!(
        decode("0000000000000000000000000i"),
        Err(DecodeError::InvalidCharacter(25))
    );
    assert_eq!(
        decode("l0000000000000000000000000"),
        Err(DecodeError::InvalidCharacter(0))
    );
    assert_eq!(
        decode("000000000000o0000000000000"),
        Err(DecodeError::InvalidCharacter(12))
    );
    assert_eq!(
        decode("0000000000000u000000000000"),
        Err(DecodeError::InvalidCharacter(13))
    );
}

#[test]
fn uppercase_is_an_invalid_character() {
    assert_eq!(
        decode("A0000000000000000000000000"),
        Err(DecodeError::InvalidCharacter(0))
    );
}

#[test]
fn large_first_symbol_is_overflow() {
    assert_eq!(
        decode("80000000000000000000000000"),
        Err(DecodeError::Overflow)
    );
    assert_eq!(
        decode("zzzzzzzzzzzzzzzzzzzzzzzzzz"),
        Err(DecodeError::Overflow)
    );
}

#[test]
fn seven_first_symbol_is_not_overflow() {
    assert!(decode("70000000000000000000000000").is_ok());
}

#[test]
fn character_errors_come_before_overflow() {
    assert_eq!(
        decode("z000000000000000000000000i"),
        Err(DecodeError::InvalidCharacter(25))
    );
}

#[test]
fn encoded_order_follows_value_order() {
    assert!(encode(5) < encode(6));
    assert!(encode(999) < encode(1000));
    assert!(encode(1u128 << 80) < encode((1u128 << 80) + 1));
    assert!(encode(u128::MAX - 1) < encode(u128::MAX));
}
