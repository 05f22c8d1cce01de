//! Text helpers for the listing output: the column separator, and a
//! replacer that edits characters of a colored line by their position in
//! the colorless rendering.  Drawing frames and colors is the terminal
//! layer's part; the character bookkeeping is verified here.

use vstd::prelude::*;
use vstd::string::StringExecFns;

verus! {

/// The column separator of the listing output.
pub fn separator() -> (r: String)
    ensures
        r@ == "│"@,
{
    String::from_str("│")
}

/// A colored line with the ANSI escape codes taken out, as the outside
/// console library strips them.
pub uninterp spec fn stripped_ansi(s: Seq<char>) -> Seq<char>;

/// Relies on console's strip_ansi_codes: a pure function of the text that
/// removes ANSI escape sequences.
#[verifier::external_body]
fn strip_ansi(s: &str) -> (r: String)
    ensures
        r@ == stripped_ansi(s@),
{
    console::strip_ansi_codes(s).to_string()
}

/// Replaces characters of a colored string, addressing them by their
/// position in the colorless variant.
pub struct ColoredTextReplacer {
    pub original: String,
    pub nocolor: String,
    pub replacements: Vec<(usize, char)>,
}

/// The replacement recorded for a colorless position, the latest request
/// winning.
pub open spec fn replacement_at(reps: Seq<(usize, char)>, idx: int, n: int) -> Option<char>
    decreases n,
{
    if n <= 0 {
        None
    } else if reps[n - 1].0 == idx {
        Some(reps[n - 1].1)
    } else {
        replacement_at(reps, idx, n - 1)
    }
}

/// The replaced text: original characters are walked together with the
/// colorless ones; where they agree the colorless position advances and
/// its replacement (if any) is emitted, everything else (the color codes)
/// passes through untouched.
pub open spec fn replaced_text(
    orig: Seq<char>,
    noc: Seq<char>,
    reps: Seq<(usize, char)>,
    i: int,
    p: int,
) -> Seq<char>
    decreases orig.len() - i,
{
    if i < 0 || i >= orig.len() {
        Seq::empty()
    } else if 0 <= p < noc.len() && noc[p] == orig[i] {
        let c = match replacement_at(reps, p, reps.len() as int) {
            Some(c) => c,
            None => orig[i],
        };
        seq![c] + replaced_text(orig, noc, reps, i + 1, p + 1)
    } else {
        seq![orig[i]] + replaced_text(orig, noc, reps, i + 1, p)
    }
}

impl ColoredTextReplacer {
    /// Wrap a colored line; the colorless variant is computed once.
    pub fn new(original: String) -> (r: Self)
        ensures
            r.original == original,
            r.nocolor@ == stripped_ansi(original@),
            r.replacements@ == Seq::<(usize, char)>::empty(),
    {
        let nocolor = strip_ansi(original.as_str());
        let r = ColoredTextReplacer { original, nocolor, replacements: Vec::new() };
        proof {
            assert(r.replacements@ =~= Seq::<(usize, char)>::empty());
        }
        r
    }

    /// Record that the character at a colorless position is to be
    /// replaced.
    pub fn replace(&mut self, idx: usize, replacement: char)
        ensures
            final(self).original == old(self).original,
            final(self).nocolor == old(self).nocolor,
            final(self).replacements@ == old(self).replacements@.push((idx, replacement)),
    {
        self.replacements.push((idx, replacement));
    }

    /// The replaced string.
    pub fn get(&self) -> (r: String)
        ensures
            r@ == replaced_text(
                self.original@,
                self.nocolor@,
                self.replacements@,
                0,
                0,
            ),
    {
        let orig = crate::strutil::chars_of(self.original.as_str());
        let noc = crate::strutil::chars_of(self.nocolor.as_str());
        let mut out = String::new();
        let mut i: usize = 0;
        let mut p: usize = 0;
        while i < orig.len()
            invariant
                i <= orig@.len(),
                p <= noc@.len(),
                orig@ == self.original@,
                noc@ == self.nocolor@,
                replaced_text(orig@, noc@, self.replacements@, 0, 0) == out@ + replaced_text(
                    orig@,
                    noc@,
                    self.replacements@,
                    i as int,
                    p as int,
                ),
            decreases orig@.len() - i,
        {
            let c = orig[i];
            if p < noc.len() && noc[p] == c {
                let chosen = match self.find_replacement(p) {
                    Some(r) => r,
                    None => c,
                };
                crate::strutil::push_char(&mut out, chosen);
                i = i + 1;
                p = p + 1;
            } else {
                crate::strutil::push_char(&mut out, c);
                i = i + 1;
            }
            proof {
                assert(replaced_text(orig@, noc@, self.replacements@, 0, 0) =~= out@
                    + replaced_text(orig@, noc@, self.replacements@, i as int, p as int));
            }
        }
        proof {
            assert(replaced_text(orig@, noc@, self.replacements@, i as int, p as int)
                =~= Seq::<char>::empty());
            assert(out@ =~= replaced_text(orig@, noc@, self.replacements@, 0, 0));
        }
        out
    }

    /// The recorded replacement for a colorless position, if any.
    fn find_replacement(&self, idx: usize) -> (r: Option<char>)
        ensures
            r == replacement_at(
                self.replacements@,
                idx as int,
                self.replacements@.len() as int,
            ),
    {
        let mut found: Option<char> = None;
        let mut n: usize = 0;
        while n < self.replacements.len()
            invariant
                n <= self.replacements@.len(),
                found == replacement_at(self.replacements@, idx as int, n as int),
            decreases self.replacements@.len() - n,
        {
            if self.replacements[n].0 == idx {
                found = Some(self.replacements[n].1);
            }
            n = n + 1;
        }
        found
    }
}

} // verus!
