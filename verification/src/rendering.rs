//! How a header is written: the text that states a directive, a block of
//! directive lines, and the head of a file. The laws of [`crate::laws`] say
//! that the grammar reads such text back as what it states, and that it
//! accepts no other text.

use crate::alphabet::Alphabet;
use crate::directive::Directive;
use vstd::prelude::*;

verus! {

/// The keyword that follows the marker on a line of the kind of `directive`,
/// with the blank that parts it from the arguments, if the kind takes any.
pub open spec fn keyword(directive: Directive) -> Seq<char> {
    match directive {
        Directive::Purity(_) => "pure"@,
        Directive::NixOption { .. } => "nix-option "@,
        Directive::Registry { .. } => "registry "@,
        Directive::Package(_) => "package "@,
        Directive::Command(_) => "command "@,
    }
}

/// The alphabet from which the arguments of `directive` are drawn.
pub open spec fn alphabet_of(directive: Directive) -> Alphabet {
    match directive {
        Directive::Registry { .. } => Alphabet::Reference,
        _ => Alphabet::Identifier,
    }
}

/// The arguments of `directive` as they stand on its line.
pub open spec fn rendered_arguments(directive: Directive) -> Seq<char> {
    match directive {
        Directive::Purity(_) => Seq::empty(),
        Directive::NixOption { key, value } => key + " "@ + value,
        Directive::Registry { old_ref, new_ref } => old_ref + " "@ + new_ref,
        Directive::Package(name) => name,
        Directive::Command(name) => name,
    }
}

/// The line that states `directive`, without its line ending.
pub open spec fn rendered(directive: Directive) -> Seq<char> {
    "#!"@ + keyword(directive) + rendered_arguments(directive)
}

/// A directive that a line can state: its arguments are well-formed, and a
/// purity directive holds `true`, since the line has no way to say `false`.
pub open spec fn expressible(directive: Directive) -> bool {
    directive.wf() && (directive matches Directive::Purity(purity) ==> purity)
}

/// Each of `directives` is one that a line can state.
pub open spec fn all_expressible(directives: Seq<Directive>) -> bool {
    forall|i: int| 0 <= i < directives.len() ==> expressible(#[trigger] directives[i])
}

/// One of the two line endings, `\n` and `\r\n`.
pub open spec fn is_line_ending(ending: Seq<char>) -> bool {
    ending == "\n"@ || ending == "\r\n"@
}

/// A line without its ending: `line` holds no `\n`.
pub open spec fn is_line(line: Seq<char>) -> bool {
    forall|i: int| 0 <= i < line.len() ==> #[trigger] line[i] != '\n'
}

/// One line of a header block: the directive that it states, and the line
/// ending that closes it.
pub struct Line {
    pub directive: Directive,
    pub ending: Seq<char>,
}

impl Line {
    /// The directive is one that a line can state, and the ending is a line
    /// ending.
    pub open spec fn wf(self) -> bool {
        expressible(self.directive) && is_line_ending(self.ending)
    }

    /// The text of the line.
    pub open spec fn text(self) -> Seq<char> {
        rendered(self.directive) + self.ending
    }
}

/// The text of `lines`, one after the other.
pub open spec fn block_text(lines: Seq<Line>) -> Seq<char>
    decreases lines.len(),
{
    if lines.len() == 0 {
        Seq::empty()
    } else {
        lines[0].text() + block_text(lines.drop_first())
    }
}

/// The directives that `lines` state, in their order.
pub open spec fn directives_of(lines: Seq<Line>) -> Seq<Directive> {
    lines.map_values(|line: Line| line.directive)
}

/// Each of `lines` is well-formed.
pub open spec fn all_wf(lines: Seq<Line>) -> bool {
    forall|i: int| 0 <= i < lines.len() ==> (#[trigger] lines[i]).wf()
}

/// The head of a file: the interpreter line and the header block.
pub struct Header {
    /// What follows the marker on the first line. It is never looked at.
    pub interpreter: Seq<char>,
    /// The line ending that closes the first line.
    pub ending: Seq<char>,
    /// The lines of the header block.
    pub lines: Seq<Line>,
}

impl Header {
    /// The interpreter line is one line, and every line of the block is
    /// well-formed.
    pub open spec fn wf(self) -> bool {
        &&& is_line(self.interpreter)
        &&& is_line_ending(self.ending)
        &&& all_wf(self.lines)
    }

    /// The directives of the header block, in their order.
    pub open spec fn directives(self) -> Seq<Directive> {
        directives_of(self.lines)
    }

    /// The text of the head: the marker, the rest of the interpreter line,
    /// and the lines of the block.
    pub open spec fn text(self) -> Seq<char> {
        "#!"@ + self.interpreter + self.ending + block_text(self.lines)
    }

    /// The text of a whole file with this head: the head, the blank line
    /// that `blank` closes, and the body.
    pub open spec fn file(self, blank: Seq<char>, body: Seq<char>) -> Seq<char> {
        self.text() + blank + body
    }
}

/// The package directives that state `names`, one for each, in their order.
pub open spec fn packages(names: Seq<Seq<char>>) -> Seq<Directive> {
    Seq::new(names.len(), |i: int| Directive::Package(names[i]))
}

} // verus!
