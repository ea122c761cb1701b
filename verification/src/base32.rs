//! The base-32 codec: a 128-bit payload is rendered as exactly 26 symbols
//! drawn from a 32-symbol alphabet (digits and lowercase letters, with the
//! visually ambiguous `i`, `l`, `o`, `u` left out), most significant first.
//! 128 bits do not fill 26 five-bit groups, so the first symbol carries
//! only the top 3 bits and is always one of the alphabet's first 8 symbols.

use vstd::prelude::*;
use vstd::arithmetic::div_mod::{
    lemma_div_denominator, lemma_div_is_ordered, lemma_fundamental_div_mod,
    lemma_fundamental_div_mod_converse, lemma_multiply_divide_lt,
};
use crate::chars::{first_not, lemma_first_not_all_ok, lemma_first_not_at, lemma_first_not_none};
use crate::chars::{diff_below_at, seq_lt};

verus! {

/// Why a candidate suffix was rejected.
#[derive(Clone, Copy, Debug, PartialEq, Eq, Structural)]
pub enum DecodeError {
    /// Not exactly 26 characters long.
    InvalidLength,
    /// A character outside the alphabet; carries the first such position.
    InvalidCharacter(usize),
    /// The first character encodes more than 3 bits, so the value would
    /// not fit in 128 bits.
    Overflow,
}

/// The symbol for a five-bit group: the alphabet, most significant digit
/// of the alphabet order first.
pub open spec fn symbol_of(d: int) -> char {
    if d == 0 { '0' } else if d == 1 { '1' } else if d == 2 { '2' } else if d == 3 { '3' }
    else if d == 4 { '4' } else if d == 5 { '5' } else if d == 6 { '6' } else if d == 7 { '7' }
    else if d == 8 { '8' } else if d == 9 { '9' } else if d == 10 { 'a' } else if d == 11 { 'b' }
    else if d == 12 { 'c' } else if d == 13 { 'd' } else if d == 14 { 'e' } else if d == 15 { 'f' }
    else if d == 16 { 'g' } else if d == 17 { 'h' } else if d == 18 { 'j' } else if d == 19 { 'k' }
    else if d == 20 { 'm' } else if d == 21 { 'n' } else if d == 22 { 'p' } else if d == 23 { 'q' }
    else if d == 24 { 'r' } else if d == 25 { 's' } else if d == 26 { 't' } else if d == 27 { 'v' }
    else if d == 28 { 'w' } else if d == 29 { 'x' } else if d == 30 { 'y' } else { 'z' }
}

/// The five-bit group a symbol stands for, or -1 when the character is
/// outside the alphabet.
pub open spec fn symbol_value(c: char) -> int {
    let u = c as u32;
    if 48 <= u && u <= 57 { u - 48 }          // '0'..'9'
    else if 97 <= u && u <= 104 { u - 87 }    // 'a'..'h'
    else if 106 <= u && u <= 107 { u - 88 }   // 'j', 'k'
    else if 109 <= u && u <= 110 { u - 89 }   // 'm', 'n'
    else if 112 <= u && u <= 116 { u - 90 }   // 'p'..'t'
    else if 118 <= u && u <= 122 { u - 91 }   // 'v'..'z'
    else { -1 }
}

/// True of the 32 characters of the alphabet.
pub open spec fn is_symbol(c: char) -> bool {
    symbol_value(c) >= 0
}

/// The character test of the alphabet, as a function value.
pub open spec fn symbol_ok() -> spec_fn(char) -> bool {
    |c: char| is_symbol(c)
}

/// Symbol and value are mutual inverses on the alphabet.
pub proof fn lemma_symbol_inverse(d: int)
    requires
        0 <= d < 32,
    ensures
        symbol_value(symbol_of(d)) == d,
        is_symbol(symbol_of(d)),
{
}

/// A symbol of a smaller group has the smaller character code, so the
/// alphabet orders encoded strings as it orders values.
pub proof fn lemma_symbol_monotone(d1: int, d2: int)
    requires
        0 <= d1 < d2 < 32,
    ensures
        (symbol_of(d1) as u32) < (symbol_of(d2) as u32),
{
    lemma_symbol_inverse(d1);
    lemma_symbol_inverse(d2);
}

/// 32 raised to `n`.
pub open spec fn pow32(n: nat) -> nat
    decreases n,
{
    if n == 0 {
        1
    } else {
        32 * pow32((n - 1) as nat)
    }
}

pub proof fn lemma_pow32_pos(n: nat)
    ensures
        pow32(n) >= 1,
    decreases n,
{
    if n > 0 {
        lemma_pow32_pos((n - 1) as nat);
    }
}

pub proof fn lemma_pow32_increases(a: nat, b: nat)
    requires
        a <= b,
    ensures
        pow32(a) <= pow32(b),
    decreases b,
{
    if a < b {
        lemma_pow32_increases(a, (b - 1) as nat);
        lemma_pow32_pos((b - 1) as nat);
    }
}

/// The two powers of 32 the codec's bounds rest on: 26 groups cover 130
/// bits, and a leading group of at most 7 keeps the value under 2^128.
pub proof fn lemma_pow32_codec_bounds()
    ensures
        pow32(25) == 0x20000000000000000000000000000000,
        pow32(26) == 0x400000000000000000000000000000000,
        8 * pow32(25) == 0x100000000000000000000000000000000,
{
    reveal_with_fuel(pow32, 27);
}

/// The last `n` five-bit groups of `v`, least significant group written
/// last, each rendered as its alphabet symbol.
pub open spec fn suffix_chars(v: u128, n: nat) -> Seq<char>
    decreases n,
{
    if n == 0 {
        Seq::empty()
    } else {
        suffix_chars(v / 32, (n - 1) as nat).push(symbol_of((v % 32) as int))
    }
}

/// The canonical 26-symbol rendering of a payload.
pub open spec fn encoded(v: u128) -> Seq<char> {
    suffix_chars(v, 26)
}

pub proof fn lemma_suffix_chars_len(v: u128, n: nat)
    ensures
        suffix_chars(v, n).len() == n,
    decreases n,
{
    if n > 0 {
        lemma_suffix_chars_len(v / 32, (n - 1) as nat);
    }
}

/// Every character of an encoding is an alphabet symbol.
pub proof fn lemma_suffix_chars_symbols(v: u128, n: nat)
    ensures
        forall|i: int| 0 <= i < suffix_chars(v, n).len() ==> is_symbol(#[trigger] suffix_chars(v, n)[i]),
    decreases n,
{
    if n > 0 {
        lemma_suffix_chars_symbols(v / 32, (n - 1) as nat);
        lemma_symbol_inverse((v % 32) as int);
        lemma_suffix_chars_len(v / 32, (n - 1) as nat);
        assert forall|i: int| 0 <= i < suffix_chars(v, n).len()
            implies is_symbol(#[trigger] suffix_chars(v, n)[i]) by {
            if i < n - 1 {
                assert(suffix_chars(v, n)[i] == suffix_chars(v / 32, (n - 1) as nat)[i]);
            }
        }
    }
}

/// The first character of an encoding renders the most significant group.
pub proof fn lemma_suffix_chars_first(v: u128, n: nat)
    requires
        n >= 1,
    ensures
        suffix_chars(v, n)[0] == symbol_of(((v as int) / (pow32((n - 1) as nat) as int)) % 32),
    decreases n,
{
    lemma_suffix_chars_len(v / 32, (n - 1) as nat);
    if n == 1 {
        assert(pow32(0) == 1);
        assert((v as int) / 1 == v as int);
    } else {
        lemma_suffix_chars_first(v / 32, (n - 1) as nat);
        lemma_pow32_pos((n - 2) as nat);
        lemma_div_denominator(v as int, 32, pow32((n - 2) as nat) as int);
        assert(32 * (pow32((n - 2) as nat) as int) == pow32((n - 1) as nat) as int);
        assert(((v / 32) as int) / (pow32((n - 2) as nat) as int) == (v as int) / (pow32(
            (n - 1) as nat,
        ) as int));
    }
}

/// The value written in a digit string, most significant symbol first.
pub open spec fn str_value(s: Seq<char>) -> int
    decreases s.len(),
{
    if s.len() == 0 {
        0
    } else {
        str_value(s.drop_last()) * 32 + symbol_value(s.last())
    }
}

/// A well-formed encoded suffix: 26 alphabet symbols whose first symbol
/// carries at most 3 bits.
pub open spec fn valid_suffix(s: Seq<char>) -> bool {
    &&& s.len() == 26
    &&& forall|i: int| 0 <= i < 26 ==> is_symbol(#[trigger] s[i])
    &&& symbol_value(s[0]) <= 7
}

/// Decoding reads back the value that was encoded.
pub proof fn lemma_str_value_of_suffix_chars(v: u128, n: nat)
    requires
        v < pow32(n),
    ensures
        str_value(suffix_chars(v, n)) == v,
    decreases n,
{
    if n == 0 {
        assert(pow32(0) == 1);
    } else {
        let q = v / 32;
        let s = suffix_chars(v, n);
        lemma_suffix_chars_len(q, (n - 1) as nat);
        assert(s.drop_last() =~= suffix_chars(q, (n - 1) as nat));
        lemma_pow32_pos((n - 1) as nat);
        lemma_multiply_divide_lt(v as int, 32, pow32((n - 1) as nat) as int);
        lemma_str_value_of_suffix_chars(q, (n - 1) as nat);
        lemma_symbol_inverse((v % 32) as int);
        lemma_fundamental_div_mod(v as int, 32);
    }
}

/// A digit string's value is bounded by the power of 32 of its length.
pub proof fn lemma_str_value_bound(s: Seq<char>)
    requires
        forall|i: int| 0 <= i < s.len() ==> is_symbol(#[trigger] s[i]),
    ensures
        0 <= str_value(s) < pow32(s.len()),
    decreases s.len(),
{
    if s.len() > 0 {
        assert(forall|i: int|
            0 <= i < s.drop_last().len() ==> is_symbol(#[trigger] s.drop_last()[i]));
        lemma_str_value_bound(s.drop_last());
        assert(is_symbol(s.last()));
        assert(0 <= symbol_value(s.last()) < 32);
    }
}

/// With the first symbol at most 7, the value stays under 8 * 32^(n-1),
/// which for 26 symbols is exactly 2^128.
pub proof fn lemma_str_value_first_bound(s: Seq<char>)
    requires
        s.len() >= 1,
        forall|i: int| 0 <= i < s.len() ==> is_symbol(#[trigger] s[i]),
        symbol_value(s[0]) <= 7,
    ensures
        0 <= str_value(s) < 8 * pow32((s.len() - 1) as nat),
    decreases s.len(),
{
    if s.len() == 1 {
        assert(s.drop_last().len() == 0);
        assert(str_value(s.drop_last()) == 0);
        assert(s.last() == s[0]);
        assert(str_value(s) == 0 * 32 + symbol_value(s[0]));
    } else {
        assert(forall|i: int|
            0 <= i < s.drop_last().len() ==> is_symbol(#[trigger] s.drop_last()[i]));
        assert(s.drop_last()[0] == s[0]);
        lemma_str_value_first_bound(s.drop_last());
        assert(is_symbol(s.last()));
        assert(0 <= symbol_value(s.last()) < 32);
        assert(pow32((s.len() - 1) as nat) == 32 * pow32((s.len() - 2) as nat));
    }
}

/// Encoding writes back the digits that a value was decoded from.
pub proof fn lemma_suffix_chars_of_value(s: Seq<char>, n: nat)
    requires
        s.len() == n,
        forall|i: int| 0 <= i < s.len() ==> is_symbol(#[trigger] s[i]),
        str_value(s) <= u128::MAX,
    ensures
        suffix_chars(str_value(s) as u128, n) == s,
    decreases n,
{
    if n > 0 {
        let sd = s.drop_last();
        let a = str_value(sd);
        let d = symbol_value(s.last());
        let v = str_value(s) as u128;
        assert(forall|i: int| 0 <= i < sd.len() ==> is_symbol(#[trigger] sd[i]));
        lemma_str_value_bound(sd);
        assert(is_symbol(s.last()));
        assert(0 <= d < 32);
        lemma_fundamental_div_mod_converse(v as int, 32, a, d);
        assert(v / 32 == a as u128);
        assert((v % 32) as int == d);
        lemma_suffix_chars_of_value(sd, (n - 1) as nat);
        assert(suffix_chars(v, n) == suffix_chars(a as u128, (n - 1) as nat).push(symbol_of(d)));
        assert(symbol_of(d) == s.last()) by {
            lemma_symbol_value_inverse(s.last());
        }
        assert(suffix_chars(v, n) =~= s);
    }
}

/// On alphabet symbols, `symbol_of` undoes `symbol_value`.
pub proof fn lemma_symbol_value_inverse(c: char)
    requires
        is_symbol(c),
    ensures
        symbol_of(symbol_value(c)) == c,
{
    assert(c as u32 <= 122);
}

/// Encoding is strictly monotone: a smaller value yields a string that
/// comes strictly earlier in character order.
pub proof fn lemma_suffix_chars_monotone(v1: u128, v2: u128, n: nat)
    requires
        v1 < v2,
        v2 < pow32(n),
    ensures
        seq_lt(suffix_chars(v1, n), suffix_chars(v2, n)),
    decreases n,
{
    let a = suffix_chars(v1, n);
    let b = suffix_chars(v2, n);
    lemma_suffix_chars_len(v1, n);
    lemma_suffix_chars_len(v2, n);
    let q1 = v1 / 32;
    let q2 = v2 / 32;
    let d1 = (v1 % 32) as int;
    let d2 = (v2 % 32) as int;
    lemma_fundamental_div_mod(v1 as int, 32);
    lemma_fundamental_div_mod(v2 as int, 32);
    lemma_suffix_chars_len(q1, (n - 1) as nat);
    lemma_suffix_chars_len(q2, (n - 1) as nat);
    if q1 == q2 {
        assert(d1 < d2);
        lemma_symbol_monotone(d1, d2);
        assert(a[n - 1] == symbol_of(d1));
        assert(b[n - 1] == symbol_of(d2));
        assert(forall|j: int| 0 <= j < n - 1 ==> a[j] == b[j]);
        assert(diff_below_at(a, b, n - 1));
    } else {
        lemma_div_is_ordered(v1 as int, v2 as int, 32);
        assert(q1 < q2);
        lemma_pow32_pos((n - 1) as nat);
        lemma_multiply_divide_lt(v2 as int, 32, pow32((n - 1) as nat) as int);
        lemma_suffix_chars_monotone(q1, q2, (n - 1) as nat);
        let i = choose|i: int|
            #[trigger] diff_below_at(
                suffix_chars(q1, (n - 1) as nat),
                suffix_chars(q2, (n - 1) as nat),
                i,
            );
        assert(a[i] == suffix_chars(q1, (n - 1) as nat)[i]);
        assert(b[i] == suffix_chars(q2, (n - 1) as nat)[i]);
        assert(forall|j: int| 0 <= j < i ==> a[j] == b[j]);
        assert(diff_below_at(a, b, i));
    }
}

/// A payload always fits under 26 groups, and its top group is below 8.
pub proof fn lemma_encoded_valid(v: u128)
    ensures
        valid_suffix(encoded(v)),
        encoded(v).len() == 26,
{
    lemma_pow32_codec_bounds();
    lemma_suffix_chars_len(v, 26);
    lemma_suffix_chars_symbols(v, 26);
    lemma_suffix_chars_first(v, 26);
    let p25 = pow32(25) as int;
    assert(8 * p25 == 0x100000000000000000000000000000000);
    lemma_multiply_divide_lt(v as int, p25, 8);
    assert((v as int) / p25 < 8);
    vstd::arithmetic::div_mod::lemma_div_pos_is_pos(v as int, p25);
    assert(0 <= (v as int) / p25);
    assert(((v as int) / p25) % 32 == (v as int) / p25);
    lemma_symbol_inverse((v as int) / p25 % 32);
}

/// Round trip at the spec level: the value of an encoding is the payload
/// it was made from.
pub proof fn lemma_decode_encode(v: u128)
    ensures
        str_value(encoded(v)) == v,
{
    lemma_pow32_codec_bounds();
    lemma_str_value_of_suffix_chars(v, 26);
}

/// Round trip the other way: encoding the value of a well-formed suffix
/// writes the same 26 symbols back.
pub proof fn lemma_encode_decode(s: Seq<char>)
    requires
        valid_suffix(s),
    ensures
        0 <= str_value(s) <= u128::MAX,
        encoded(str_value(s) as u128) == s,
{
    lemma_pow32_codec_bounds();
    lemma_str_value_first_bound(s);
    lemma_suffix_chars_of_value(s, 26);
}

/// The decoder's result on a candidate, rules applied in order: the exact
/// length first, then membership of every character in the alphabet
/// (reporting the first offender), then the 3-bit bound on the first
/// symbol.
pub open spec fn decode_spec(s: Seq<char>) -> Result<u128, DecodeError> {
    if s.len() != 26 {
        Err(DecodeError::InvalidLength)
    } else if first_not(s, symbol_ok()) >= 0 {
        Err(DecodeError::InvalidCharacter(first_not(s, symbol_ok()) as usize))
    } else if symbol_value(s[0]) > 7 {
        Err(DecodeError::Overflow)
    } else {
        Ok(str_value(s) as u128)
    }
}

/// The decoder accepts exactly the well-formed suffixes.
pub proof fn lemma_decode_spec_ok_iff(s: Seq<char>)
    ensures
        decode_spec(s) is Ok <==> valid_suffix(s),
        decode_spec(s) is Ok ==> decode_spec(s) == Ok::<u128, DecodeError>(str_value(s) as u128),
{
    if valid_suffix(s) {
        lemma_first_not_none(s, symbol_ok());
    }
    if decode_spec(s) is Ok {
        lemma_first_not_all_ok(s, symbol_ok());
        assert(forall|i: int| 0 <= i < s.len() ==> is_symbol(#[trigger] s[i]));
    }
}

/// Relies on alloc's String::push: appends one character at the end.
#[verifier::external_body]
pub(crate) fn push_char(s: &mut String, c: char)
    ensures
        final(s)@ == old(s)@.push(c),
{
    s.push(c);
}

/// The alphabet symbol of a five-bit group, as executable code.
fn symbol_char(d: u8) -> (c: char)
    requires
        d < 32,
    ensures
        c == symbol_of(d as int),
{
    if d == 0 { '0' } else if d == 1 { '1' } else if d == 2 { '2' } else if d == 3 { '3' }
    else if d == 4 { '4' } else if d == 5 { '5' } else if d == 6 { '6' } else if d == 7 { '7' }
    else if d == 8 { '8' } else if d == 9 { '9' } else if d == 10 { 'a' } else if d == 11 { 'b' }
    else if d == 12 { 'c' } else if d == 13 { 'd' } else if d == 14 { 'e' } else if d == 15 { 'f' }
    else if d == 16 { 'g' } else if d == 17 { 'h' } else if d == 18 { 'j' } else if d == 19 { 'k' }
    else if d == 20 { 'm' } else if d == 21 { 'n' } else if d == 22 { 'p' } else if d == 23 { 'q' }
    else if d == 24 { 'r' } else if d == 25 { 's' } else if d == 26 { 't' } else if d == 27 { 'v' }
    else if d == 28 { 'w' } else if d == 29 { 'x' } else if d == 30 { 'y' } else { 'z' }
}

/// The five-bit group of an alphabet symbol, as executable code.
fn symbol_val(c: char) -> (r: Option<u8>)
    ensures
        match r {
            Some(d) => d < 32 && d as int == symbol_value(c),
            None => !is_symbol(c),
        },
{
    let u = c as u32;
    if 48 <= u && u <= 57 {
        Some((u - 48) as u8)
    } else if 97 <= u && u <= 104 {
        Some((u - 87) as u8)
    } else if 106 <= u && u <= 107 {
        Some((u - 88) as u8)
    } else if 109 <= u && u <= 110 {
        Some((u - 89) as u8)
    } else if 112 <= u && u <= 116 {
        Some((u - 90) as u8)
    } else if 118 <= u && u <= 122 {
        Some((u - 91) as u8)
    } else {
        None
    }
}

/// A sequence read back to front.
pub open spec fn rev_seq(s: Seq<char>) -> Seq<char> {
    Seq::new(s.len(), |j: int| s[s.len() - 1 - j])
}

/// Renders a payload as its canonical 26-symbol suffix, most significant
/// group first.
pub fn encode(v: u128) -> (r: String)
    ensures
        r@ == encoded(v),
        r@.len() == 26,
{
    proof {
        lemma_suffix_chars_len(v, 26);
    }
    let mut rev: Vec<char> = Vec::new();
    let mut x = v;
    let mut k: usize = 0;
    while k < 26
        invariant
            rev@.len() == k,
            k <= 26,
            encoded(v) == suffix_chars(x, (26 - k) as nat) + rev_seq(rev@),
        decreases 26 - k,
    {
        let ghost old_rev = rev@;
        let ghost old_x = x;
        let d = (x % 32) as u8;
        let c = symbol_char(d);
        rev.push(c);
        x = x / 32;
        proof {
            let m = (26 - k) as nat;
            assert(suffix_chars(old_x, m) == suffix_chars(x, (m - 1) as nat).push(c));
            assert(suffix_chars(x, (m - 1) as nat).push(c) =~= suffix_chars(x, (m - 1) as nat)
                + seq![c]);
            assert(rev_seq(rev@) =~= seq![c] + rev_seq(old_rev));
            assert(suffix_chars(x, (m - 1) as nat) + (seq![c] + rev_seq(old_rev)) =~= (suffix_chars(
                x,
                (m - 1) as nat,
            ) + seq![c]) + rev_seq(old_rev));
        }
        k += 1;
    }
    assert(encoded(v) =~= rev_seq(rev@));
    let mut out = String::new();
    let mut j: usize = 0;
    while j < 26
        invariant
            rev@.len() == 26,
            encoded(v) == rev_seq(rev@),
            encoded(v).len() == 26,
            j <= 26,
            out@ == encoded(v).take(j as int),
        decreases 26 - j,
    {
        let c = rev[25 - j];
        push_char(&mut out, c);
        proof {
            assert(encoded(v)[j as int] == rev_seq(rev@)[j as int]);
            assert(encoded(v).take(j + 1 as int) =~= encoded(v).take(j as int).push(c));
        }
        j += 1;
    }
    assert(out@ =~= encoded(v));
    out
}

/// Reads a candidate suffix back to a payload, reporting the exact length
/// demand, the first character outside the alphabet, or a first symbol too
/// large to fit 128 bits.
pub fn decode(s: &str) -> (r: Result<u128, DecodeError>)
    ensures
        r == decode_spec(s@),
        r matches Ok(v) ==> valid_suffix(s@) && v as int == str_value(s@) && encoded(v) == s@,
        r is Ok <==> valid_suffix(s@),
{
    proof {
        lemma_decode_spec_ok_iff(s@);
    }
    let n = s.unicode_len();
    if n != 26 {
        return Err(DecodeError::InvalidLength);
    }
    let mut digits: Vec<u8> = Vec::new();
    let mut i: usize = 0;
    while i < 26
        invariant
            s@.len() == 26,
            i <= 26,
            digits@.len() == i,
            forall|j: int| 0 <= j < i ==> is_symbol(#[trigger] s@[j]),
            forall|j: int|
                0 <= j < i ==> (#[trigger] digits@[j]) < 32 && digits@[j] as int == symbol_value(
                    s@[j],
                ),
        decreases 26 - i,
    {
        let c = s.get_char(i);
        match symbol_val(c) {
            Some(d) => {
                digits.push(d);
            },
            None => {
                proof {
                    lemma_first_not_at(s@, symbol_ok(), i as int);
                }
                return Err(DecodeError::InvalidCharacter(i));
            },
        }
        i += 1;
    }
    proof {
        lemma_first_not_none(s@, symbol_ok());
    }
    if digits[0] > 7 {
        return Err(DecodeError::Overflow);
    }
    proof {
        lemma_pow32_codec_bounds();
    }
    let mut acc: u128 = 0;
    let mut j: usize = 0;
    while j < 26
        invariant
            s@.len() == 26,
            digits@.len() == 26,
            forall|i2: int| 0 <= i2 < 26 ==> is_symbol(#[trigger] s@[i2]),
            forall|i2: int|
                0 <= i2 < 26 ==> (#[trigger] digits@[i2]) < 32 && digits@[i2] as int
                    == symbol_value(s@[i2]),
            symbol_value(s@[0]) <= 7,
            j <= 26,
            acc as int == str_value(s@.take(j as int)),
            j > 0 ==> acc < 8 * pow32((j - 1) as nat),
            pow32(25) == 0x20000000000000000000000000000000,
        decreases 26 - j,
    {
        let ghost old_acc = acc;
        let d = digits[j];
        proof {
            let t1 = s@.take(j as int);
            let t2 = s@.take(j + 1 as int);
            assert(t2.drop_last() =~= t1);
            assert(t2.last() == s@[j as int]);
            if j > 0 {
                lemma_pow32_increases((j - 1) as nat, 24);
                assert(8 * pow32((j - 1) as nat) * 32 == 8 * pow32(j as nat)) by {
                    assert(pow32(j as nat) == 32 * pow32((j - 1) as nat));
                };
            }
            lemma_pow32_increases(j as nat, 25);
        }
        acc = acc * 32 + (d as u128);
        j += 1;
    }
    assert(s@.take(26) =~= s@);
    proof {
        lemma_suffix_chars_of_value(s@, 26);
    }
    Ok(acc)
}

} // verus!
