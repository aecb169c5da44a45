//! Character classes by which the scanner tells tokens apart.
//!
//! The classes are those of `char::is_whitespace`, `char::is_alphabetic`,
//! `char::is_numeric` and `char::is_alphanumeric`. Whitespace is a short list
//! and is written out in full. Letters and numeric characters are written out
//! within ASCII; beyond ASCII they are tables of the Unicode Character
//! Database, which stand here as uninterpreted functions.

use vstd::prelude::*;

verus! {

/// Whether a character beyond ASCII has the Unicode property `Alphabetic`.
pub uninterp spec fn unicode_alphabetic(c: char) -> bool;

/// Whether a character beyond ASCII has one of the Unicode general categories
/// for numbers (`Nd`, `Nl`, `No`).
pub uninterp spec fn unicode_numeric(c: char) -> bool;

/// The characters that count as whitespace, those with the Unicode property
/// `White_Space`: the space, the controls from tab to carriage return, next
/// line, the no-break spaces, the Ogham space mark, the spaces from en quad to
/// hair space, the line and paragraph separators, the medium mathematical
/// space and the ideographic space.
pub open spec fn whitespace_char(c: char) -> bool {
    ||| c == ' '
    ||| ('\t' <= c && c <= '\r')
    ||| c == '\u{85}'
    ||| c == '\u{a0}'
    ||| c == '\u{1680}'
    ||| ('\u{2000}' <= c && c <= '\u{200a}')
    ||| c == '\u{2028}'
    ||| c == '\u{2029}'
    ||| c == '\u{202f}'
    ||| c == '\u{205f}'
    ||| c == '\u{3000}'
}

/// The characters that count as letters.
pub open spec fn alphabetic_char(c: char) -> bool {
    if c <= '\x7f' {
        ('a' <= c && c <= 'z') || ('A' <= c && c <= 'Z')
    } else {
        unicode_alphabetic(c)
    }
}

/// The characters that count as numeric.
pub open spec fn numeric_char(c: char) -> bool {
    if c <= '\x7f' {
        '0' <= c && c <= '9'
    } else {
        unicode_numeric(c)
    }
}

/// The characters that may continue an identifier: letters and numeric
/// characters.
pub open spec fn alphanumeric_char(c: char) -> bool {
    alphabetic_char(c) || numeric_char(c)
}

/// `char::is_whitespace` tells whether the character has the Unicode property
/// `White_Space`. Trusted: the characters with that property are the
/// twenty-five that `whitespace_char` lists, six of them within ASCII.
pub assume_specification[ char::is_whitespace ](c: char) -> (b: bool)
    ensures
        b == whitespace_char(c),
;

/// `char::is_alphabetic` tells whether the character has the Unicode property
/// `Alphabetic`. Trusted: within ASCII these are the letters `a` to `z` and `A`
/// to `Z`; beyond ASCII the answer is whatever the Unicode table holds, which is
/// named and not stated.
pub assume_specification[ char::is_alphabetic ](c: char) -> (b: bool)
    ensures
        c <= '\x7f' ==> b == (('a' <= c && c <= 'z') || ('A' <= c && c <= 'Z')),
        c > '\x7f' ==> b == unicode_alphabetic(c),
;

/// `char::is_numeric` tells whether the character has one of the Unicode
/// general categories for numbers. Trusted: within ASCII these are the digits
/// `0` to `9`; beyond ASCII the answer is whatever the Unicode table holds,
/// which is named and not stated.
pub assume_specification[ char::is_numeric ](c: char) -> (b: bool)
    ensures
        c <= '\x7f' ==> b == ('0' <= c && c <= '9'),
        c > '\x7f' ==> b == unicode_numeric(c),
;

/// `char::is_alphanumeric` is documented as true exactly of the characters for
/// which `char::is_alphabetic` or `char::is_numeric` is. Trusted.
pub assume_specification[ char::is_alphanumeric ](c: char) -> (b: bool)
    ensures
        b == (alphabetic_char(c) || numeric_char(c)),
;

/// A set of characters of which the scanner collects a leading run.
#[derive(Clone, Copy, Debug)]
pub enum CharSet {
    /// Whitespace characters.
    Whitespace,
    /// Letters and numeric characters.
    Alphanumeric,
    /// Numeric characters.
    Numeric,
}

impl CharSet {
    /// Whether `c` belongs to the set.
    pub open spec fn has(self, c: char) -> bool {
        match self {
            CharSet::Whitespace => whitespace_char(c),
            CharSet::Alphanumeric => alphanumeric_char(c),
            CharSet::Numeric => numeric_char(c),
        }
    }

    /// Tests whether `c` belongs to the set.
    pub fn contains(&self, c: char) -> (found: bool)
        ensures
            found == self.has(c),
    {
        match self {
            CharSet::Whitespace => c.is_whitespace(),
            CharSet::Alphanumeric => c.is_alphanumeric(),
            CharSet::Numeric => c.is_numeric(),
        }
    }
}

/// The length of the longest prefix of `s` whose characters all belong to
/// `set`.
pub open spec fn run_length(s: Seq<char>, set: CharSet) -> nat
    decreases s.len(),
{
    if s.len() == 0 || !set.has(s[0]) {
        0
    } else {
        1 + run_length(s.drop_first(), set)
    }
}

/// A run stays within the text, holds only characters of the set, and ends at
/// the end of the text or before a character outside the set.
pub proof fn lemma_run_length_is_maximal(s: Seq<char>, set: CharSet)
    ensures
        run_length(s, set) <= s.len(),
        forall|i: int| 0 <= i < run_length(s, set) ==> set.has(#[trigger] s[i]),
        run_length(s, set) < s.len() ==> !set.has(s[run_length(s, set) as int]),
    decreases s.len(),
{
    if s.len() == 0 || !set.has(s[0]) {
    } else {
        let rest = s.drop_first();
        lemma_run_length_is_maximal(rest, set);
        assert forall|i: int| 0 <= i < run_length(s, set) implies set.has(#[trigger] s[i]) by {
            if i > 0 {
                assert(s[i] == rest[i - 1]);
            }
        }
        if run_length(s, set) < s.len() {
            assert(s[run_length(s, set) as int] == rest[run_length(rest, set) as int]);
        }
    }
}

/// The run is the only length with the properties of
/// `lemma_run_length_is_maximal`.
pub proof fn lemma_run_length_is(s: Seq<char>, set: CharSet, n: nat)
    requires
        n <= s.len(),
        forall|i: int| 0 <= i < n ==> set.has(#[trigger] s[i]),
        n < s.len() ==> !set.has(s[n as int]),
    ensures
        run_length(s, set) == n,
    decreases s.len(),
{
    if n == 0 {
    } else {
        let rest = s.drop_first();
        assert(set.has(s[0]));
        assert forall|i: int| 0 <= i < n - 1 implies set.has(#[trigger] rest[i]) by {
            assert(rest[i] == s[i + 1]);
        }
        if n - 1 < rest.len() {
            assert(rest[n - 1] == s[n as int]);
        }
        lemma_run_length_is(rest, set, (n - 1) as nat);
    }
}

/// Finds where the leading run of `set` in `text` ends.
pub fn leading_run(text: &[char], set: CharSet) -> (length: usize)
    ensures
        length == run_length(text@, set),
        length <= text@.len(),
{
    let mut length: usize = 0;
    while length < text.len() && set.contains(text[length])
        invariant
            length <= text@.len(),
            forall|i: int| 0 <= i < length ==> set.has(#[trigger] text@[i]),
        decreases text@.len() - length,
    {
        length += 1;
    }
    proof {
        lemma_run_length_is(text@, set, length as nat);
    }
    length
}

} // verus!
