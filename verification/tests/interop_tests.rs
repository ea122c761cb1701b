//! The identifiers interoperate with the type-safe-id crate: the suffix
//! codec and the canonical layout agree in both directions.

use std::str::FromStr;
use type_safe_id::{DynamicType, TypeSafeId};
use typeid::id::Identifier;
use typeid::payload::{assemble, timestamp};

#[test]
fn our_strings_parse_there() {
    let id = Identifier::generate("user").unwrap();
    let s = id.to_string();
    let theirs: TypeSafeId<DynamicType> = TypeSafeId::from_str(&s).unwrap();
    assert_eq!(theirs.type_prefix(), "user");
    assert_eq!(theirs.uuid().as_u128(), id.payload());
    assert_eq!(theirs.to_string(), s);
}

#[test]
fn their_strings_parse_here() {
    let theirs: TypeSafeId<DynamicType> =
        TypeSafeId::new_with_type(DynamicType::new("post").unwrap());
    let s = theirs.to_string();
    let ours = Identifier::parse(&s).unwrap();
    assert_eq!(ours.prefix(), "post");
    assert_eq!(ours.payload(), theirs.uuid().as_u128());
    assert_eq!(ours.to_string(), s);
}

#[test]
fn suffix_codec_agrees_on_fixed_payloads() {
    for v in [0u128, 1, 31, 1u128 << 80, u128::MAX, 0x0188_bac7_4afa_78aa_bc3b_bd1e_ef28_d881] {
        let s = format!("tag_{}", typeid::base32::encode(v));
        let theirs: TypeSafeId<DynamicType> = TypeSafeId::from_str(&s).unwrap();
        assert_eq!(theirs.uuid().as_u128(), v);
        assert_eq!(theirs.to_string(), s);
    }
}

#[test]
fn assembled_payload_keeps_its_timestamp() {
    let t = 1_700_000_000_000u64;
    let p = assemble(t, 0xABCDEF_0123_4567_89AB_CDEF);
    assert_eq!(timestamp(p), t);
}
