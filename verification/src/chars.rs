//! Character classes and sequence orderings shared by the prefix
//! validator and the base-32 codec.

use vstd::prelude::*;

verus! {

/// True of the ASCII lowercase letters `a`..`z`.
pub open spec fn is_lower_letter(c: char) -> bool {
    97 <= c as u32 && c as u32 <= 122
}

/// True of the ASCII letters of either case.
pub open spec fn is_ascii_letter(c: char) -> bool {
    is_lower_letter(c) || (65 <= c as u32 && c as u32 <= 90)
}

/// Index of the first character of `s` that fails `ok`, or -1 when every
/// character passes.
pub open spec fn first_not(s: Seq<char>, ok: spec_fn(char) -> bool) -> int
    decreases s.len(),
{
    if s.len() == 0 {
        -1
    } else if !ok(s[0]) {
        0
    } else {
        let r = first_not(s.drop_first(), ok);
        if r < 0 {
            -1
        } else {
            r + 1
        }
    }
}

/// When every character passes `ok`, there is no first failure.
pub proof fn lemma_first_not_none(s: Seq<char>, ok: spec_fn(char) -> bool)
    requires
        forall|i: int| 0 <= i < s.len() ==> ok(#[trigger] s[i]),
    ensures
        first_not(s, ok) == -1,
    decreases s.len(),
{
    if s.len() > 0 {
        assert(forall|i: int|
            0 <= i < s.drop_first().len() ==> ok(#[trigger] s.drop_first()[i]));
        lemma_first_not_none(s.drop_first(), ok);
    }
}

/// When `s[i]` fails `ok` and everything before it passes, `i` is the first
/// failure.
pub proof fn lemma_first_not_at(s: Seq<char>, ok: spec_fn(char) -> bool, i: int)
    requires
        0 <= i < s.len(),
        !ok(s[i]),
        forall|j: int| 0 <= j < i ==> ok(#[trigger] s[j]),
    ensures
        first_not(s, ok) == i,
    decreases s.len(),
{
    if i > 0 {
        assert(s.drop_first()[i - 1] == s[i]);
        assert(forall|j: int|
            0 <= j < i - 1 ==> ok(#[trigger] s.drop_first()[j]));
        lemma_first_not_at(s.drop_first(), ok, i - 1);
    }
}

/// When there is no first failure, every character passes `ok`.
pub proof fn lemma_first_not_all_ok(s: Seq<char>, ok: spec_fn(char) -> bool)
    requires
        first_not(s, ok) < 0,
    ensures
        forall|i: int| 0 <= i < s.len() ==> ok(#[trigger] s[i]),
    decreases s.len(),
{
    if s.len() > 0 {
        lemma_first_not_all_ok(s.drop_first(), ok);
        assert forall|i: int| 0 <= i < s.len() implies ok(#[trigger] s[i]) by {
            if i > 0 {
                assert(s.drop_first()[i - 1] == s[i]);
            }
        }
    }
}

/// `a` differs from `b` first at index `i`, where `a` carries the smaller
/// character code.
pub open spec fn diff_below_at(a: Seq<char>, b: Seq<char>, i: int) -> bool {
    &&& 0 <= i < a.len()
    &&& i < b.len()
    &&& (a[i] as u32) < (b[i] as u32)
    &&& forall|j: int| 0 <= j < i ==> a[j] == b[j]
}

/// `a` comes strictly before `b` in character-code order: at the first
/// position where they differ, `a` holds the smaller character.
pub open spec fn seq_lt(a: Seq<char>, b: Seq<char>) -> bool {
    exists|i: int| diff_below_at(a, b, i)
}

} // verus!
