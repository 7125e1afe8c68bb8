//! The ways in which a header parse can fail.

use vstd::prelude::*;

verus! {

/// Why a text was rejected. Parsing is all-or-nothing: with any of these, no
/// configuration is produced.
#[derive(Debug, Clone, Copy, PartialEq, Eq, Structural)]
pub enum ParseError {
    /// The text does not begin with the two-character marker `#!`.
    MissingHeaderMarker,
    /// A non-blank line after the interpreter line is none of the five
    /// directives.
    UnknownDirective,
    /// A line begins with the marker and a directive's keyword, but what
    /// follows the keyword is not the argument, or the arguments, that the
    /// directive takes.
    MalformedArgument,
    /// The text ends before the blank line that closes the header block.
    MissingTerminator,
    /// Text was left over after the body had been captured.
    IncompleteConsumption,
}

} // verus!
