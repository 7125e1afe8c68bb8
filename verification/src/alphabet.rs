//! The two alphabets from which the arguments of directives are drawn.

use nom::AsChar;
use vstd::prelude::*;

verus! {

/// The ASCII letters and digits.
pub open spec fn is_alphanumeric(c: char) -> bool {
    ||| 'a' <= c <= 'z'
    ||| 'A' <= c <= 'Z'
    ||| '0' <= c <= '9'
}

/// The characters of an identifier: letters, digits, `-`, `_` and `.`.
pub open spec fn is_plain_identifier_char(c: char) -> bool {
    is_alphanumeric(c) || c == '-' || c == '_' || c == '.'
}

/// The characters of a reference: those of an identifier and `:`, `/`, `?`
/// and `=`, which a locator in the shape of a URL needs.
pub open spec fn is_reference_char(c: char) -> bool {
    is_plain_identifier_char(c) || c == ':' || c == '/' || c == '?' || c == '='
}

/// `nom::AsChar::is_alphanum` for `char`: whether `c` is an ASCII letter or an
/// ASCII digit. nom decides this with `char::is_ascii_alphabetic` and
/// `char::is_ascii_digit`; the contract is taken on trust.
#[verifier::external_body]
fn is_alphanum(c: char) -> (r: bool)
    ensures
        r == is_alphanumeric(c),
{
    c.is_alphanum()
}

/// Whether `c` may stand in an identifier.
pub fn plain_identifier_char(c: char) -> (r: bool)
    ensures
        r == is_plain_identifier_char(c),
{
    is_alphanum(c) || c == '-' || c == '_' || c == '.'
}

/// Whether `c` may stand in a reference.
pub fn reference_char(c: char) -> (r: bool)
    ensures
        r == is_reference_char(c),
{
    plain_identifier_char(c) || c == ':' || c == '/' || c == '?' || c == '='
}

/// Which of the two alphabets an argument is drawn from.
#[derive(Debug, Clone, Copy, PartialEq, Eq, Structural)]
pub enum Alphabet {
    /// Command names, package names, option keys and option values.
    Identifier,
    /// The old and the new locator of a registry override.
    Reference,
}

impl Alphabet {
    /// Whether `c` belongs to this alphabet.
    pub open spec fn contains(self, c: char) -> bool {
        match self {
            Alphabet::Identifier => is_plain_identifier_char(c),
            Alphabet::Reference => is_reference_char(c),
        }
    }

    /// `contains` as a predicate.
    pub open spec fn predicate(self) -> spec_fn(char) -> bool {
        |c: char| self.contains(c)
    }

    /// A non-empty text all of whose characters belong to this alphabet.
    pub open spec fn is_token(self, s: Seq<char>) -> bool {
        s.len() > 0 && forall|i: int| 0 <= i < s.len() ==> self.contains(#[trigger] s[i])
    }

    /// Whether `c` belongs to this alphabet.
    pub fn accepts(self, c: char) -> (r: bool)
        ensures
            r == self.contains(c),
    {
        match self {
            Alphabet::Identifier => plain_identifier_char(c),
            Alphabet::Reference => reference_char(c),
        }
    }

    /// Both alphabets are ASCII, and neither holds a blank or a line break.
    pub proof fn lemma_contains_ascii(self, c: char)
        requires
            self.contains(c),
        ensures
            c <= '\u{7f}',
            c != ' ',
            c != '\n',
            c != '\r',
            c != '#',
    {
    }
}

} // verus!
