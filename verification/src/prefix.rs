//! The prefix validator: a type prefix is at most 63 characters, each an
//! ASCII lowercase letter or an underscore; when non-empty it starts with
//! a letter, does not end with an underscore, and never holds two
//! underscores in a row.

use vstd::prelude::*;
use crate::chars::{
    first_not, is_ascii_letter, is_lower_letter, lemma_first_not_at, lemma_first_not_all_ok,
    lemma_first_not_none,
};

verus! {

/// Why a candidate prefix was rejected.
#[derive(Clone, Copy, Debug, PartialEq, Eq, Structural)]
pub enum PrefixError {
    /// Longer than 63 characters.
    TooLong,
    /// A character outside `a`..`z` and `_`; carries the first such position.
    InvalidCharacter(usize),
    /// Non-empty but not starting with a letter.
    InvalidStart,
    /// Ends with an underscore, or holds two underscores in a row.
    InvalidStructure,
}

/// True of the characters a prefix may hold: lowercase letters and `_`.
pub open spec fn is_prefix_char(c: char) -> bool {
    is_lower_letter(c) || c as u32 == 95
}

/// The character test of the prefix grammar, as a function value.
pub open spec fn prefix_char_ok() -> spec_fn(char) -> bool {
    |c: char| is_prefix_char(c)
}

/// The full prefix grammar.  The empty prefix is valid and denotes an
/// untyped identifier.
pub open spec fn valid_prefix(s: Seq<char>) -> bool {
    &&& s.len() <= 63
    &&& forall|i: int| 0 <= i < s.len() ==> is_prefix_char(#[trigger] s[i])
    &&& s.len() > 0 ==> is_lower_letter(s[0])
    &&& s.len() > 0 ==> (s[s.len() - 1] as u32) != 95
    &&& forall|i: int|
        0 <= i < s.len() - 1 ==> !((#[trigger] s[i] as u32) == 95 && (s[i + 1] as u32) == 95)
}

/// An underscore at the end, or two underscores in a row.
pub open spec fn bad_structure(s: Seq<char>) -> bool {
    ||| s.len() > 0 && (s[s.len() - 1] as u32) == 95
    ||| exists|i: int|
        0 <= i < s.len() - 1 && (#[trigger] s[i] as u32) == 95 && (s[i + 1] as u32) == 95
}

/// The validator's result on a candidate, rules applied in order: the
/// length bound first, then the demand that a non-empty prefix start with
/// a letter, then the character class of every position (reporting the
/// first offender), then the structural underscore rules.  The start rule
/// admits a letter of either case, so a prefix that merely miscases a
/// letter is reported for its character, not its start.
pub open spec fn validate_spec(s: Seq<char>) -> Result<(), PrefixError> {
    if s.len() > 63 {
        Err(PrefixError::TooLong)
    } else if s.len() > 0 && !is_ascii_letter(s[0]) {
        Err(PrefixError::InvalidStart)
    } else if first_not(s, prefix_char_ok()) >= 0 {
        Err(PrefixError::InvalidCharacter(first_not(s, prefix_char_ok()) as usize))
    } else if bad_structure(s) {
        Err(PrefixError::InvalidStructure)
    } else {
        Ok(())
    }
}

/// The validator accepts exactly the valid prefixes.
pub proof fn lemma_validate_ok_iff(s: Seq<char>)
    ensures
        validate_spec(s) == Ok::<(), PrefixError>(()) <==> valid_prefix(s),
{
    if valid_prefix(s) {
        lemma_first_not_none(s, prefix_char_ok());
        assert(s.len() > 0 ==> is_ascii_letter(s[0]));
        assert(!bad_structure(s));
    }
    if validate_spec(s) == Ok::<(), PrefixError>(()) {
        assert(first_not(s, prefix_char_ok()) < 0);
        lemma_first_not_all_ok(s, prefix_char_ok());
        assert(forall|i: int| 0 <= i < s.len() ==> is_prefix_char(#[trigger] s[i]));
        if s.len() > 0 {
            assert(is_prefix_char(s[0]));
            assert(is_lower_letter(s[0]));
        }
    }
}

/// A prefix that passed validation, carrying the text it was made from.
pub struct ValidatedPrefix {
    text: String,
}

impl View for ValidatedPrefix {
    type V = Seq<char>;

    closed spec fn view(&self) -> Seq<char> {
        self.text@
    }
}

impl ValidatedPrefix {
    pub fn as_str(&self) -> (r: &str)
        ensures
            r@ == self@,
    {
        self.text.as_str()
    }

    pub fn into_string(self) -> (r: String)
        ensures
            r@ == self@,
    {
        self.text
    }
}

/// Checks a candidate type prefix against the grammar, reporting the first
/// rule it breaks; on success hands back the accepted text.
pub fn validate(s: &str) -> (r: Result<ValidatedPrefix, PrefixError>)
    ensures
        match r {
            Ok(p) => p@ == s@ && valid_prefix(s@) && validate_spec(s@) == Ok::<(), PrefixError>(()),
            Err(e) => validate_spec(s@) == Err::<(), PrefixError>(e) && !valid_prefix(s@),
        },
{
    proof {
        lemma_validate_ok_iff(s@);
    }
    let n = s.unicode_len();
    if n > 63 {
        return Err(PrefixError::TooLong);
    }
    if n > 0 {
        let u0 = s.get_char(0) as u32;
        if !((97 <= u0 && u0 <= 122) || (65 <= u0 && u0 <= 90)) {
            return Err(PrefixError::InvalidStart);
        }
    }
    let mut i: usize = 0;
    while i < n
        invariant
            n == s@.len(),
            n <= 63,
            i <= n,
            n > 0 ==> is_ascii_letter(s@[0]),
            forall|j: int| 0 <= j < i ==> is_prefix_char(#[trigger] s@[j]),
        decreases n - i,
    {
        let u = s.get_char(i) as u32;
        if !((97 <= u && u <= 122) || u == 95) {
            proof {
                lemma_first_not_at(s@, prefix_char_ok(), i as int);
            }
            return Err(PrefixError::InvalidCharacter(i));
        }
        i += 1;
    }
    proof {
        lemma_first_not_none(s@, prefix_char_ok());
    }
    if n > 0 {
        let ul = s.get_char(n - 1) as u32;
        if ul == 95 {
            return Err(PrefixError::InvalidStructure);
        }
    }
    let mut k: usize = 0;
    while k + 1 < n
        invariant
            n == s@.len(),
            n <= 63,
            k <= n,
            n > 0 ==> is_ascii_letter(s@[0]),
            forall|j: int| 0 <= j < n ==> is_prefix_char(#[trigger] s@[j]),
            first_not(s@, prefix_char_ok()) < 0,
            n > 0 ==> (s@[n - 1] as u32) != 95,
            forall|j: int|
                0 <= j < k ==> !((#[trigger] s@[j] as u32) == 95 && (s@[j + 1] as u32) == 95),
        decreases n - k,
    {
        if s.get_char(k) as u32 == 95 && s.get_char(k + 1) as u32 == 95 {
            assert(bad_structure(s@));
            return Err(PrefixError::InvalidStructure);
        }
        k += 1;
    }
    assert(!bad_structure(s@));
    assert(valid_prefix(s@));
    Ok(ValidatedPrefix { text: s.to_owned() })
}

} // verus!
