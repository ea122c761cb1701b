//! The state and update rules of the surrounding interactive shell: a
//! current prefix, a current identifier, and the three messages the shell
//! can deliver.  The shell itself (rendering, input capture, clipboard)
//! only performs what these rules decide.

use vstd::prelude::*;
use crate::id::{canonical_chars, Identifier};
use crate::prefix::valid_prefix;

verus! {

/// The messages the shell can send.
pub enum Msg {
    /// Copy the identifier's canonical string to the clipboard.
    Copy,
    /// Mint a fresh identifier under the current prefix.
    Generate,
    /// Replace the prefix and mint a fresh identifier under it.
    SetPrefix(String),
}

/// What the shell must do after an update: redraw, and possibly hand a
/// text to the clipboard.
pub struct UpdateOutcome {
    pub render: bool,
    pub copy_text: Option<String>,
}

/// The shell's state: the prefix as last entered, and the identifier
/// minted most recently.
pub struct App {
    pub prefix: String,
    pub id: Identifier,
}

/// The fallback prefix used when the entered prefix breaks the grammar:
/// the shell shows an identifier typed `error` rather than none at all.
/// The codec itself never substitutes it; the substitution is this
/// shell-level rule.
pub open spec fn fallback_prefix() -> Seq<char> {
    "error"@
}

/// The shell's regeneration rule: a fresh identifier under the current
/// prefix when it is valid, under the fallback prefix otherwise.
pub open spec fn regenerated_under(id: Identifier, p: Seq<char>) -> bool {
    &&& id.wf()
    &&& valid_prefix(p) ==> id@.0 == p
    &&& !valid_prefix(p) ==> id@.0 == fallback_prefix()
}

proof fn lemma_fallback_prefix_valid()
    ensures
        valid_prefix(fallback_prefix()),
{
    reveal_strlit("error");
    assert(fallback_prefix().len() == 5);
    assert(fallback_prefix()[0] == 'e');
    assert(fallback_prefix()[1] == 'r');
    assert(fallback_prefix()[2] == 'r');
    assert(fallback_prefix()[3] == 'o');
    assert(fallback_prefix()[4] == 'r');
}

/// An ASCII uppercase letter folded to lowercase; anything else is kept.
pub open spec fn lower_char(c: char) -> char {
    if c == 'A' { 'a' } else if c == 'B' { 'b' } else if c == 'C' { 'c' } else if c == 'D' { 'd' }
    else if c == 'E' { 'e' } else if c == 'F' { 'f' } else if c == 'G' { 'g' } else if c == 'H' { 'h' }
    else if c == 'I' { 'i' } else if c == 'J' { 'j' } else if c == 'K' { 'k' } else if c == 'L' { 'l' }
    else if c == 'M' { 'm' } else if c == 'N' { 'n' } else if c == 'O' { 'o' } else if c == 'P' { 'p' }
    else if c == 'Q' { 'q' } else if c == 'R' { 'r' } else if c == 'S' { 's' } else if c == 'T' { 't' }
    else if c == 'U' { 'u' } else if c == 'V' { 'v' } else if c == 'W' { 'w' } else if c == 'X' { 'x' }
    else if c == 'Y' { 'y' } else if c == 'Z' { 'z' } else { c }
}

/// The characters the input rule strips out: spaces, hyphens and
/// underscores.
pub open spec fn is_stripped(c: char) -> bool {
    c == ' ' || c == '-' || c == '_'
}

/// The input rule applied to entered text: fold ASCII letters to
/// lowercase and strip spaces, hyphens and underscores.
pub open spec fn sanitize_spec(s: Seq<char>) -> Seq<char>
    decreases s.len(),
{
    if s.len() == 0 {
        Seq::empty()
    } else if is_stripped(s.last()) {
        sanitize_spec(s.drop_last())
    } else {
        sanitize_spec(s.drop_last()).push(lower_char(s.last()))
    }
}

/// Folds an entered candidate prefix to lowercase and strips spaces,
/// hyphens and underscores, as the shell does before it stores the text.
pub fn sanitize_prefix(s: &str) -> (r: String)
    ensures
        r@ == sanitize_spec(s@),
{
    let n = s.unicode_len();
    let mut out = String::new();
    let mut i: usize = 0;
    while i < n
        invariant
            n == s@.len(),
            i <= n,
            out@ == sanitize_spec(s@.take(i as int)),
        decreases n - i,
    {
        let c = s.get_char(i);
        proof {
            assert(s@.take(i + 1 as int).drop_last() =~= s@.take(i as int));
            assert(s@.take(i + 1 as int).last() == s@[i as int]);
        }
        if !(c == ' ' || c == '-' || c == '_') {
            let lowered = if c == 'A' { 'a' } else if c == 'B' { 'b' } else if c == 'C' { 'c' }
            else if c == 'D' { 'd' } else if c == 'E' { 'e' } else if c == 'F' { 'f' }
            else if c == 'G' { 'g' } else if c == 'H' { 'h' } else if c == 'I' { 'i' }
            else if c == 'J' { 'j' } else if c == 'K' { 'k' } else if c == 'L' { 'l' }
            else if c == 'M' { 'm' } else if c == 'N' { 'n' } else if c == 'O' { 'o' }
            else if c == 'P' { 'p' } else if c == 'Q' { 'q' } else if c == 'R' { 'r' }
            else if c == 'S' { 's' } else if c == 'T' { 't' } else if c == 'U' { 'u' }
            else if c == 'V' { 'v' } else if c == 'W' { 'w' } else if c == 'X' { 'x' }
            else if c == 'Y' { 'y' } else if c == 'Z' { 'z' } else { c };
            crate::base32::push_char(&mut out, lowered);
        }
        i += 1;
    }
    assert(s@.take(n as int) =~= s@);
    out
}

impl App {
    /// The initial state: an empty prefix and an untyped identifier.
    pub fn create() -> (a: App)
        ensures
            a.prefix@ == Seq::<char>::empty(),
            a.id.wf(),
            a.id@.0 == Seq::<char>::empty(),
    {
        let prefix = String::new();
        let id = match Identifier::generate(prefix.as_str()) {
            Ok(id) => id,
            Err(_) => vstd::pervasive::unreached(),
        };
        App { prefix, id }
    }

    /// Mints a fresh identifier under the current prefix, falling back to
    /// the `error` prefix when the current one is invalid.  The prefix
    /// text itself is left as entered.
    pub fn generate(&mut self)
        ensures
            final(self).prefix@ == old(self).prefix@,
            regenerated_under(final(self).id, old(self).prefix@),
    {
        match Identifier::generate(self.prefix.as_str()) {
            Ok(id) => {
                self.id = id;
            },
            Err(_) => {
                proof {
                    lemma_fallback_prefix_valid();
                }
                match Identifier::generate("error") {
                    Ok(id) => {
                        self.id = id;
                    },
                    Err(_) => {
                        vstd::pervasive::unreached()
                    },
                }
            },
        }
    }

    /// Applies one message: `Generate` and `SetPrefix` regenerate the
    /// identifier, `Copy` changes nothing and hands the canonical string
    /// out for the clipboard.  A redraw is always asked for.
    pub fn update(&mut self, msg: Msg) -> (r: UpdateOutcome)
        ensures
            r.render == true,
            match msg {
                Msg::Copy => {
                    &&& final(self).prefix@ == old(self).prefix@
                    &&& final(self).id@ == old(self).id@
                    &&& match r.copy_text {
                        Some(t) => t@ == canonical_chars(old(self).id@.0, old(self).id@.1),
                        None => false,
                    }
                },
                Msg::Generate => {
                    &&& final(self).prefix@ == old(self).prefix@
                    &&& regenerated_under(final(self).id, old(self).prefix@)
                    &&& r.copy_text is None
                },
                Msg::SetPrefix(s) => {
                    &&& final(self).prefix@ == s@
                    &&& regenerated_under(final(self).id, s@)
                    &&& r.copy_text is None
                },
            },
    {
        match msg {
            Msg::Generate => {
                self.generate();
                UpdateOutcome { render: true, copy_text: None }
            },
            Msg::SetPrefix(s) => {
                self.prefix = s;
                self.generate();
                UpdateOutcome { render: true, copy_text: None }
            },
            Msg::Copy => {
                let text = self.id.to_string();
                UpdateOutcome { render: true, copy_text: Some(text) }
            },
        }
    }
}

} // verus!
