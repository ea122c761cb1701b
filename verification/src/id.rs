//! The identifier: a validated prefix joined to a payload, rendered as
//! the canonical string `prefix_suffix`, or the bare suffix when the
//! prefix is empty.  Parsing undoes rendering exactly.

use vstd::prelude::*;
use crate::base32::{
    decode, decode_spec, encode, encoded, lemma_decode_encode, lemma_decode_spec_ok_iff,
    lemma_encoded_valid, lemma_pow32_codec_bounds, lemma_suffix_chars_monotone, push_char,
    str_value, DecodeError,
};
use crate::chars::{diff_below_at, seq_lt};
use crate::payload;
use crate::payload::{lemma_payload_time_order, payload_of, timestamp_limit};
use crate::prefix::{valid_prefix, validate, validate_spec, PrefixError};

verus! {

/// Which half of the input failed parsing.
#[derive(Clone, Copy, Debug, PartialEq, Eq, Structural)]
pub enum ParseError {
    /// The prefix half broke the prefix grammar.
    Prefix(PrefixError),
    /// The suffix half could not be decoded.
    Suffix(DecodeError),
}

/// A typed identifier: an immutable value made once by `generate` or
/// `parse` and never changed afterwards.
#[derive(Debug)]
pub struct Identifier {
    prefix: String,
    payload: u128,
}

impl View for Identifier {
    type V = (Seq<char>, u128);

    closed spec fn view(&self) -> (Seq<char>, u128) {
        (self.prefix@, self.payload)
    }
}

/// The canonical string of a prefix and payload: the 26-symbol suffix
/// alone when the prefix is empty, else prefix, underscore, suffix.
pub open spec fn canonical_chars(p: Seq<char>, v: u128) -> Seq<char> {
    if p.len() == 0 {
        encoded(v)
    } else {
        p.push('_') + encoded(v)
    }
}

/// The parser's result on a candidate string.  The suffix is the trailing
/// 26 characters; anything before it must close with the separating
/// underscore and is the prefix.  The prefix is validated before the
/// suffix is decoded, and the error names the half that failed.
pub open spec fn parse_spec(s: Seq<char>) -> Result<(Seq<char>, u128), ParseError> {
    if s.len() < 26 {
        Err(ParseError::Suffix(DecodeError::InvalidLength))
    } else {
        let before = s.take(s.len() - 26);
        let suffix = s.skip(s.len() - 26);
        if before.len() > 0 && (before.last() as u32) != 95 {
            Err(ParseError::Prefix(PrefixError::InvalidStructure))
        } else {
            let p = if before.len() == 0 {
                before
            } else {
                before.drop_last()
            };
            match validate_spec(p) {
                Err(e) => Err(ParseError::Prefix(e)),
                Ok(_) => match decode_spec(suffix) {
                    Err(e) => Err(ParseError::Suffix(e)),
                    Ok(v) => Ok((p, v)),
                },
            }
        }
    }
}

impl Identifier {
    /// A well-formed identifier carries a prefix that passes the grammar.
    pub open spec fn wf(&self) -> bool {
        valid_prefix(self@.0)
    }

    /// The type prefix, possibly empty.
    pub fn prefix(&self) -> (r: &str)
        ensures
            r@ == self@.0,
    {
        self.prefix.as_str()
    }

    /// The 128-bit payload.
    pub fn payload(&self) -> (r: u128)
        ensures
            r == self@.1,
    {
        self.payload
    }

    /// Mints a fresh identifier under the given prefix: the prefix is
    /// validated, never substituted, and a payload is drawn from the
    /// clock and the entropy source.  Fails exactly on the inputs the
    /// prefix grammar rejects, with the validator's error.
    pub fn generate(prefix: &str) -> (r: Result<Identifier, PrefixError>)
        ensures
            match r {
                Ok(id) => valid_prefix(prefix@) && id@.0 == prefix@ && id.wf(),
                Err(e) => validate_spec(prefix@) == Err::<(), PrefixError>(e) && !valid_prefix(
                    prefix@,
                ),
            },
    {
        match validate(prefix) {
            Ok(vp) => {
                let p = payload::generate();
                Ok(Identifier { prefix: vp.into_string(), payload: p })
            },
            Err(e) => Err(e),
        }
    }

    /// Reads an identifier back from its canonical string, reporting
    /// which half failed and how.
    pub fn parse(s: &str) -> (r: Result<Identifier, ParseError>)
        ensures
            match r {
                Ok(id) => parse_spec(s@) == Ok::<(Seq<char>, u128), ParseError>(id@) && id.wf(),
                Err(e) => parse_spec(s@) == Err::<(Seq<char>, u128), ParseError>(e),
            },
    {
        let n = s.unicode_len();
        if n < 26 {
            return Err(ParseError::Suffix(DecodeError::InvalidLength));
        }
        let ghost before = s@.take(n - 26);
        let ghost spec_suffix = s@.skip(n - 26);
        let suffix = s.substring_char(n - 26, n);
        proof {
            assert(suffix@ =~= spec_suffix);
        }
        let prefix_str = if n == 26 {
            s.substring_char(0, 0)
        } else {
            let sep = s.get_char(n - 27);
            if sep as u32 != 95 {
                assert(before.last() == s@[n - 27]);
                return Err(ParseError::Prefix(PrefixError::InvalidStructure));
            }
            s.substring_char(0, n - 27)
        };
        proof {
            if n == 26 {
                assert(prefix_str@ =~= before);
                assert(before.len() == 0);
            } else {
                assert(before.last() == s@[n - 27]);
                assert(prefix_str@ =~= before.drop_last());
            }
        }
        match validate(prefix_str) {
            Err(e) => Err(ParseError::Prefix(e)),
            Ok(vp) => match decode(suffix) {
                Err(e) => Err(ParseError::Suffix(e)),
                Ok(v) => Ok(Identifier { prefix: vp.into_string(), payload: v }),
            },
        }
    }

    /// Renders the canonical string.  Pure and total: every identifier
    /// has exactly one canonical form.
    pub fn to_string(&self) -> (r: String)
        ensures
            r@ == canonical_chars(self@.0, self@.1),
    {
        let suffix = encode(self.payload);
        if self.prefix.as_str().is_empty() {
            suffix
        } else {
            let mut out = self.prefix.clone();
            push_char(&mut out, '_');
            out.append(suffix.as_str());
            proof {
                assert(out@ =~= self.prefix@.push('_') + encoded(self.payload));
            }
            out
        }
    }
}

impl PartialEq for Identifier {
    /// Two identifiers are equal exactly when both prefix and payload
    /// are equal.
    fn eq(&self, other: &Identifier) -> (r: bool) {
        self.prefix == other.prefix && self.payload == other.payload
    }
}

impl vstd::std_specs::cmp::PartialEqSpecImpl for Identifier {
    open spec fn obeys_eq_spec() -> bool {
        true
    }

    open spec fn eq_spec(&self, other: &Identifier) -> bool {
        self@ == other@
    }
}

impl Eq for Identifier {}

/// Round trip: parsing the canonical string of any valid prefix and any
/// payload gives both back unchanged.
pub proof fn lemma_round_trip(p: Seq<char>, v: u128)
    requires
        valid_prefix(p),
    ensures
        parse_spec(canonical_chars(p, v)) == Ok::<(Seq<char>, u128), ParseError>((p, v)),
{
    let s = canonical_chars(p, v);
    lemma_encoded_valid(v);
    lemma_decode_spec_ok_iff(encoded(v));
    lemma_decode_encode(v);
    crate::prefix::lemma_validate_ok_iff(p);
    if p.len() == 0 {
        assert(s == encoded(v));
        assert(s.len() == 26);
        assert(s.take(s.len() - 26).len() == 0);
        assert(s.take(s.len() - 26) =~= p);
        assert(s.skip(s.len() - 26) =~= encoded(v));
    } else {
        assert(s.len() == p.len() + 27);
        let before = s.take(s.len() - 26);
        assert(before =~= p.push('_'));
        assert((before.last() as u32) == 95);
        assert(before.drop_last() =~= p);
        assert(s.skip(s.len() - 26) =~= encoded(v));
    }
}

/// Ordering: under one prefix, the smaller payload renders to the string
/// that comes strictly earlier in character order.
pub proof fn lemma_same_prefix_order(p: Seq<char>, v1: u128, v2: u128)
    requires
        v1 < v2,
    ensures
        seq_lt(canonical_chars(p, v1), canonical_chars(p, v2)),
{
    lemma_pow32_codec_bounds();
    lemma_suffix_chars_monotone(v1, v2, 26);
    lemma_encoded_valid(v1);
    lemma_encoded_valid(v2);
    if p.len() == 0 {
    } else {
        let c1 = canonical_chars(p, v1);
        let c2 = canonical_chars(p, v2);
        let i = choose|i: int| #[trigger] diff_below_at(encoded(v1), encoded(v2), i);
        let k = p.len() + 1 + i;
        assert(c1[k] == encoded(v1)[i]);
        assert(c2[k] == encoded(v2)[i]);
        assert(forall|j: int| 0 <= j < k ==> c1[j] == c2[j]) by {
            assert(forall|j: int|
                0 <= j < p.len() + 1 ==> #[trigger] c1[j] == p.push('_')[j] && c2[j] == p.push(
                    '_',
                )[j]);
            assert(forall|j: int|
                p.len() + 1 <= j < k ==> #[trigger] c1[j] == encoded(v1)[j - p.len() - 1]
                    && c2[j] == encoded(v2)[j - p.len() - 1]);
        }
        assert(diff_below_at(c1, c2, k));
    }
}

/// Ordering through time: two identifiers minted under one prefix at
/// different milliseconds render to strings whose character order follows
/// the clock, whatever their random tails.
pub proof fn lemma_time_ordered_strings(p: Seq<char>, t1: u64, r1: u128, t2: u64, r2: u128)
    requires
        t1 < t2,
        t2 < timestamp_limit(),
    ensures
        seq_lt(
            canonical_chars(p, payload_of(t1, r1)),
            canonical_chars(p, payload_of(t2, r2)),
        ),
{
    lemma_payload_time_order(t1, r1, t2, r2);
    lemma_same_prefix_order(p, payload_of(t1, r1), payload_of(t2, r2));
}

} // verus!
