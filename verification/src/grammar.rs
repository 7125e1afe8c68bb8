//! The grammar of the header, as functions on sequences of characters.
//!
//! Each function mirrors one executable recognizer of [`crate::parser`]: it
//! takes the text that is left and gives either what remains after the match
//! together with what was recognised, or the reason for the failure. A
//! recognizer that fails consumes nothing.

use crate::alphabet::Alphabet;
use crate::config::RunnerConfiguration;
use crate::directive::Directive;
use crate::error::ParseError;
use vstd::prelude::*;

verus! {

/// The number of characters at the front of `s` that satisfy `p`.
pub open spec fn prefix_len(s: Seq<char>, p: spec_fn(char) -> bool) -> nat
    decreases s.len(),
{
    if s.len() > 0 && p(s[0]) {
        1 + prefix_len(s.drop_first(), p)
    } else {
        0
    }
}

/// The characters that do not end a line.
pub open spec fn within_line() -> spec_fn(char) -> bool {
    |c: char| c != '\n'
}

/// What is left of `s` after the literal `lit`, if `s` begins with it.
pub open spec fn literal(s: Seq<char>, lit: Seq<char>) -> Option<Seq<char>> {
    if lit.is_prefix_of(s) {
        Some(s.skip(lit.len() as int))
    } else {
        None
    }
}

/// The longest non-empty run of characters of `alphabet` at the front of `s`:
/// what is left after it, and the run.
pub open spec fn token(s: Seq<char>, alphabet: Alphabet) -> Option<(Seq<char>, Seq<char>)> {
    let n = prefix_len(s, alphabet.predicate()) as int;
    if n == 0 {
        None
    } else {
        Some((s.skip(n), s.take(n)))
    }
}

/// What is left of `s` after one line ending, `\n` or `\r\n`.
pub open spec fn line_ending(s: Seq<char>) -> Option<Seq<char>> {
    if literal(s, "\n"@) is Some {
        literal(s, "\n"@)
    } else {
        literal(s, "\r\n"@)
    }
}

/// What is left of `s` after its first line, line ending included. Both line
/// endings close with `\n`, so this is what follows the first `\n`; a text
/// without one has no complete first line.
pub open spec fn skip_line(s: Seq<char>) -> Option<Seq<char>> {
    let n = prefix_len(s, within_line()) as int;
    if n < s.len() {
        Some(s.skip(n + 1))
    } else {
        None
    }
}

/// The comment character `#`.
pub open spec fn comment_char(s: Seq<char>) -> Result<(Seq<char>, ()), ParseError> {
    match literal(s, "#"@) {
        Some(rest) => Ok((rest, ())),
        None => Err(ParseError::MissingHeaderMarker),
    }
}

/// The header marker `#!`: what follows it, and the marker.
pub open spec fn shebang_sequence(s: Seq<char>) -> Result<(Seq<char>, Seq<char>), ParseError> {
    match literal(s, "#!"@) {
        Some(rest) => Ok((rest, "#!"@)),
        None => Err(ParseError::MissingHeaderMarker),
    }
}

/// The payload of a line: all that follows the header marker. Nothing is
/// left.
pub open spec fn shebang_commands(s: Seq<char>) -> Result<(Seq<char>, Seq<char>), ParseError> {
    match shebang_sequence(s) {
        Ok((payload, _)) => Ok((Seq::empty(), payload)),
        Err(e) => Err(e),
    }
}

/// What follows `keyword` in the payload of `s`: the arguments of the
/// directive that `keyword` names.
pub open spec fn arguments(s: Seq<char>, keyword: Seq<char>) -> Result<Seq<char>, ParseError> {
    match shebang_commands(s) {
        Err(e) => Err(e),
        Ok((_, payload)) => match literal(payload, keyword) {
            None => Err(ParseError::UnknownDirective),
            Some(arguments) => Ok(arguments),
        },
    }
}

/// A directive of one argument: marker, `keyword`, one token of `alphabet`.
pub open spec fn one_argument(s: Seq<char>, keyword: Seq<char>, alphabet: Alphabet) -> Result<
    (Seq<char>, Seq<char>),
    ParseError,
> {
    match arguments(s, keyword) {
        Err(e) => Err(e),
        Ok(arguments) => match token(arguments, alphabet) {
            None => Err(ParseError::MalformedArgument),
            Some(found) => Ok(found),
        },
    }
}

/// Two tokens of `alphabet` with exactly one blank between them.
pub open spec fn token_pair(s: Seq<char>, alphabet: Alphabet) -> Option<
    (Seq<char>, (Seq<char>, Seq<char>)),
> {
    match token(s, alphabet) {
        None => None,
        Some((after_first, first)) => match literal(after_first, " "@) {
            None => None,
            Some(after_blank) => match token(after_blank, alphabet) {
                None => None,
                Some((rest, second)) => Some((rest, (first, second))),
            },
        },
    }
}

/// A directive of two arguments: marker, `keyword`, a pair of tokens of
/// `alphabet`.
pub open spec fn two_arguments(s: Seq<char>, keyword: Seq<char>, alphabet: Alphabet) -> Result<
    (Seq<char>, (Seq<char>, Seq<char>)),
    ParseError,
> {
    match arguments(s, keyword) {
        Err(e) => Err(e),
        Ok(arguments) => match token_pair(arguments, alphabet) {
            None => Err(ParseError::MalformedArgument),
            Some(found) => Ok(found),
        },
    }
}

/// `#!pure`.
pub open spec fn pure_match(s: Seq<char>) -> Result<(Seq<char>, Directive), ParseError> {
    match arguments(s, "pure"@) {
        Err(e) => Err(e),
        Ok(rest) => Ok((rest, Directive::Purity(true))),
    }
}

/// An identifier at the front of `s`.
pub open spec fn command_identifier(s: Seq<char>) -> Result<(Seq<char>, Seq<char>), ParseError> {
    match token(s, Alphabet::Identifier) {
        None => Err(ParseError::MalformedArgument),
        Some(found) => Ok(found),
    }
}

/// The name of a package at the front of `s`, which is an identifier.
pub open spec fn package_identifier(s: Seq<char>) -> Result<(Seq<char>, Seq<char>), ParseError> {
    command_identifier(s)
}

/// A reference at the front of `s`.
pub open spec fn nix_url_reference_identifier(s: Seq<char>) -> Result<
    (Seq<char>, Seq<char>),
    ParseError,
> {
    match token(s, Alphabet::Reference) {
        None => Err(ParseError::MalformedArgument),
        Some(found) => Ok(found),
    }
}

/// `#!command <identifier>`.
pub open spec fn command_match(s: Seq<char>) -> Result<(Seq<char>, Directive), ParseError> {
    match one_argument(s, "command "@, Alphabet::Identifier) {
        Err(e) => Err(e),
        Ok((rest, name)) => Ok((rest, Directive::Command(name))),
    }
}

/// `#!package <identifier>`.
pub open spec fn package_match(s: Seq<char>) -> Result<(Seq<char>, Directive), ParseError> {
    match one_argument(s, "package "@, Alphabet::Identifier) {
        Err(e) => Err(e),
        Ok((rest, name)) => Ok((rest, Directive::Package(name))),
    }
}

/// `#!registry <reference> <reference>`.
pub open spec fn nix_registry_match(s: Seq<char>) -> Result<(Seq<char>, Directive), ParseError> {
    match two_arguments(s, "registry "@, Alphabet::Reference) {
        Err(e) => Err(e),
        Ok((rest, (old_ref, new_ref))) => Ok((rest, Directive::Registry { old_ref, new_ref })),
    }
}

/// `#!nix-option <identifier> <identifier>`.
pub open spec fn nix_option_match(s: Seq<char>) -> Result<(Seq<char>, Directive), ParseError> {
    match two_arguments(s, "nix-option "@, Alphabet::Identifier) {
        Err(e) => Err(e),
        Ok((rest, (key, value))) => Ok((rest, Directive::NixOption { key, value })),
    }
}

/// Why `s` is no directive, given that it is none: it does not begin with
/// the marker; or it does, and one of the five keywords follows, so the
/// arguments are at fault; or no keyword follows.
pub open spec fn mismatch(s: Seq<char>) -> ParseError {
    if shebang_sequence(s) is Err {
        ParseError::MissingHeaderMarker
    } else if nix_option_match(s) matches Err(ParseError::MalformedArgument) {
        ParseError::MalformedArgument
    } else if nix_registry_match(s) matches Err(ParseError::MalformedArgument) {
        ParseError::MalformedArgument
    } else if command_match(s) matches Err(ParseError::MalformedArgument) {
        ParseError::MalformedArgument
    } else if package_match(s) matches Err(ParseError::MalformedArgument) {
        ParseError::MalformedArgument
    } else {
        ParseError::UnknownDirective
    }
}

/// One directive of any kind: the first of the five recognizers that matches,
/// tried in the order option, registry, purity, command, package.
pub open spec fn any_arg_match(s: Seq<char>) -> Result<(Seq<char>, Directive), ParseError> {
    if nix_option_match(s) is Ok {
        nix_option_match(s)
    } else if nix_registry_match(s) is Ok {
        nix_registry_match(s)
    } else if pure_match(s) is Ok {
        pure_match(s)
    } else if command_match(s) is Ok {
        command_match(s)
    } else if package_match(s) is Ok {
        package_match(s)
    } else {
        Err(mismatch(s))
    }
}

/// The directives that follow one already read, each after a line ending:
/// what is left where the run stops, and the directives. The run stops before
/// a line ending that no directive follows.
pub open spec fn more_args(s: Seq<char>) -> (Seq<char>, Seq<Directive>)
    decreases s.len(),
    via more_args_decreases
{
    match line_ending(s) {
        None => (s, Seq::empty()),
        Some(line) => match any_arg_match(line) {
            Err(_) => (s, Seq::empty()),
            Ok((rest, directive)) => {
                let (end, directives) = more_args(rest);
                (end, seq![directive] + directives)
            },
        },
    }
}

#[via_fn]
proof fn more_args_decreases(s: Seq<char>) {
    if let Some(line) = line_ending(s) {
        lemma_any_arg_match_consumes(line);
    }
}

/// The directive block: zero or more directives with one line ending between
/// each two. It stops at the first line that is no directive, and is left
/// standing right after the last directive, before that line's ending.
pub open spec fn many_arg_match(s: Seq<char>) -> (Seq<char>, Seq<Directive>) {
    match any_arg_match(s) {
        Err(_) => (s, Seq::empty()),
        Ok((rest, directive)) => {
            let (end, directives) = more_args(rest);
            (end, seq![directive] + directives)
        },
    }
}

/// The blank line that closes the header block, at the start of a line: the
/// body that follows it. At the end of the text the terminator is missing;
/// any other line is at fault itself, for its arguments if it begins with the
/// marker and a keyword, else for being no directive.
pub open spec fn blank_line(s: Seq<char>) -> Result<Seq<char>, ParseError> {
    if s.len() == 0 {
        Err(ParseError::MissingTerminator)
    } else {
        match line_ending(s) {
            Some(body) => Ok(body),
            None => match any_arg_match(s) {
                Err(ParseError::MalformedArgument) => Err(ParseError::MalformedArgument),
                _ => Err(ParseError::UnknownDirective),
            },
        }
    }
}

/// What must follow the directive block, given what it left and whether it
/// held a directive: the ending of the last directive's line, if there was
/// one, and the blank line. Anything else on the last directive's line is a
/// malformed argument.
pub open spec fn terminator(s: Seq<char>, after_directive: bool) -> Result<
    Seq<char>,
    ParseError,
> {
    if !after_directive {
        blank_line(s)
    } else if s.len() == 0 {
        Err(ParseError::MissingTerminator)
    } else {
        match line_ending(s) {
            Some(line) => blank_line(line),
            None => Err(ParseError::MalformedArgument),
        }
    }
}

/// The body: all of `s`, with nothing left.
pub open spec fn body(s: Seq<char>) -> (Seq<char>, Seq<char>) {
    (Seq::empty(), s)
}

/// The end of the text.
pub open spec fn end_of_input(s: Seq<char>) -> Result<(), ParseError> {
    if s.len() == 0 {
        Ok(())
    } else {
        Err(ParseError::IncompleteConsumption)
    }
}

/// A whole file: the marker, the rest of the interpreter line, the directive
/// block, the blank line, the body. The result is the configuration that the
/// directives fold into and the body.
pub open spec fn parse_nix_runner_file(s: Seq<char>) -> Result<
    (RunnerConfiguration, Seq<char>),
    ParseError,
> {
    match shebang_sequence(s) {
        Err(e) => Err(e),
        Ok((interpreter, _)) => match skip_line(interpreter) {
            None => Err(ParseError::MissingTerminator),
            Some(header) => {
                let (rest, directives) = many_arg_match(header);
                match terminator(rest, directives.len() > 0) {
                    Err(e) => Err(e),
                    Ok(text) => {
                        let (end, body) = body(text);
                        match end_of_input(end) {
                            Err(e) => Err(e),
                            Ok(_) => Ok((RunnerConfiguration::reduce(directives), body)),
                        }
                    },
                }
            },
        },
    }
}

/// `prefix_len` is the one length `n` for which the first `n` characters of
/// `s` satisfy `p` and the next one, if there is one, does not.
pub proof fn lemma_prefix_len_unique(s: Seq<char>, p: spec_fn(char) -> bool, n: int)
    requires
        0 <= n <= s.len(),
        forall|j: int| 0 <= j < n ==> p(#[trigger] s[j]),
        n < s.len() ==> !p(s[n]),
    ensures
        prefix_len(s, p) == n,
    decreases n,
{
    if n > 0 {
        let tail = s.drop_first();
        assert forall|j: int| 0 <= j < n - 1 implies p(#[trigger] tail[j]) by {
            assert(tail[j] == s[j + 1]);
        }
        lemma_prefix_len_unique(tail, p, n - 1);
    }
}

/// What `prefix_len` counts: characters that satisfy `p`, up to the first one
/// that does not.
pub proof fn lemma_prefix_len(s: Seq<char>, p: spec_fn(char) -> bool)
    ensures
        prefix_len(s, p) <= s.len(),
        forall|j: int| 0 <= j < prefix_len(s, p) ==> p(#[trigger] s[j]),
        prefix_len(s, p) < s.len() ==> !p(s[prefix_len(s, p) as int]),
    decreases s.len(),
{
    if s.len() > 0 && p(s[0]) {
        let tail = s.drop_first();
        lemma_prefix_len(tail, p);
        assert forall|j: int| 0 <= j < prefix_len(s, p) implies p(#[trigger] s[j]) by {
            if j > 0 {
                assert(s[j] == tail[j - 1]);
            }
        }
        if prefix_len(s, p) < s.len() {
            assert(s[prefix_len(s, p) as int] == tail[prefix_len(tail, p) as int]);
        }
    }
}

/// A token that was found is a token of its alphabet, it stands at the front
/// of the text, and what is left is the rest of the text, which does not go
/// on with a character of the alphabet.
pub proof fn lemma_token(s: Seq<char>, alphabet: Alphabet)
    ensures
        token(s, alphabet) matches Some((rest, found)) ==> {
            &&& alphabet.is_token(found)
            &&& s == found + rest
            &&& rest.len() > 0 ==> !alphabet.contains(rest[0])
        },
        token(s, alphabet) is None <==> s.len() == 0 || !alphabet.contains(s[0]),
{
    lemma_prefix_len(s, alphabet.predicate());
    let n = prefix_len(s, alphabet.predicate()) as int;
    if n > 0 {
        assert(s =~= s.take(n) + s.skip(n));
        assert forall|j: int| 0 <= j < n implies alphabet.contains(#[trigger] s.take(n)[j]) by {
            assert(alphabet.predicate()(s[j]));
        }
        if n < s.len() {
            assert(!alphabet.predicate()(s[n]));
        }
    } else if s.len() > 0 {
        assert(!alphabet.predicate()(s[0]));
    }
}

/// A literal that was found stands at the front of the text, before what is
/// left.
pub proof fn lemma_literal(s: Seq<char>, lit: Seq<char>)
    ensures
        literal(s, lit) matches Some(rest) ==> s == lit + rest,
{
    if let Some(rest) = literal(s, lit) {
        assert(s =~= lit + rest);
    }
}

/// A line ending that was found stands at the front of the text, and is one
/// or two characters long.
pub proof fn lemma_line_ending(s: Seq<char>)
    ensures
        line_ending(s) matches Some(rest) ==> {
            ||| s == seq!['\n'] + rest
            ||| s == seq!['\r', '\n'] + rest
        },
        line_ending(s) is Some <==> {
            ||| s.len() >= 1 && s[0] == '\n'
            ||| s.len() >= 2 && s[0] == '\r' && s[1] == '\n'
        },
{
    reveal_strlit("\n");
    reveal_strlit("\r\n");
    assert("\n"@ =~= seq!['\n']);
    assert("\r\n"@ =~= seq!['\r', '\n']);
    lemma_literal(s, "\n"@);
    lemma_literal(s, "\r\n"@);
    if s.len() >= 1 && s[0] == '\n' {
        assert("\n"@ =~= s.subrange(0, 1));
    }
    if s.len() >= 2 && s[0] == '\r' && s[1] == '\n' {
        assert("\r\n"@ =~= s.subrange(0, 2));
    }
}

/// A directive that was recognised takes up room: what is left is shorter
/// than the text, by the marker at least.
pub proof fn lemma_any_arg_match_consumes(s: Seq<char>)
    ensures
        any_arg_match(s) matches Ok((rest, _)) ==> rest.len() + 2 <= s.len(),
{
    reveal_strlit("#!");
    if let Ok((rest, _)) = any_arg_match(s) {
        let payload = s.skip(2);
        assert(shebang_commands(s) == Ok::<_, ParseError>((Seq::<char>::empty(), payload)));
        let keyword = if nix_option_match(s) is Ok {
            "nix-option "@
        } else if nix_registry_match(s) is Ok {
            "registry "@
        } else if pure_match(s) is Ok {
            "pure"@
        } else if command_match(s) is Ok {
            "command "@
        } else {
            "package "@
        };
        let arguments = payload.skip(keyword.len() as int);
        assert(literal(payload, keyword) == Some(arguments));
        if pure_match(s) is Ok && nix_option_match(s) is Err && nix_registry_match(s) is Err {
            assert(rest == arguments);
        } else if nix_option_match(s) is Ok || nix_registry_match(s) is Ok {
            let alphabet = if nix_option_match(s) is Ok {
                Alphabet::Identifier
            } else {
                Alphabet::Reference
            };
            lemma_token(arguments, alphabet);
            let (after_first, _) = token(arguments, alphabet)->0;
            lemma_literal(after_first, " "@);
            let after_blank = literal(after_first, " "@)->0;
            lemma_token(after_blank, alphabet);
            let (after_second, _) = token(after_blank, alphabet)->0;
            assert(rest == after_second);
        } else {
            lemma_token(arguments, Alphabet::Identifier);
            let (after_name, _) = token(arguments, Alphabet::Identifier)->0;
            assert(rest == after_name);
        }
    }
}

} // verus!
