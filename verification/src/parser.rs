//! The executable recognizers of the header.
//!
//! Each takes the text that is left and returns what remains after the match
//! together with what was recognised. What each returns is fixed by the
//! function of the same name in [`crate::grammar`].

use crate::alphabet::Alphabet;
use crate::config::NixRunnerArgs;
use crate::directive::{Directive, NixOption, NixRegistryRef, ShebangArg};
use crate::error::ParseError;
use crate::grammar;
use crate::laws::{
    law_parsed_configuration_is_well_formed, law_recognised_directive_is_rendered,
};
use crate::text::{
    lemma_ascii_char_has_byte, lemma_ascii_prefix, lemma_encode_concat, lemma_encode_empty,
    lemma_first_byte, split_ascii_prefix, split_at_boundary,
};
use vstd::prelude::*;
use vstd::string::*;
use vstd::utf8::*;

verus! {

/// What a recognizer returned, as mathematical values: the text that is left
/// and the model of what was recognised, or the error.
pub open spec fn outcome<T: DeepView>(r: Result<(&str, T), ParseError>) -> Result<
    (Seq<char>, T::V),
    ParseError,
> {
    match r {
        Ok((rest, found)) => Ok((rest@, found.deep_view())),
        Err(e) => Err(e),
    }
}

/// Strips the ASCII literal `lit` from the front of `i`.
fn literal<'a>(i: &'a str, lit: &str) -> (r: Option<&'a str>)
    requires
        is_ascii_chars(lit@),
    ensures
        r.deep_view() == grammar::literal(i@, lit@),
{
    let text = i.as_bytes();
    let word = lit.as_bytes();
    let n = word.len();
    proof {
        is_ascii_chars_encode_utf8(lit@);
        if lit@.is_prefix_of(i@) {
            let rest = i@.skip(lit@.len() as int);
            assert(i@ =~= lit@ + rest);
            lemma_encode_concat(lit@, rest);
            assert(forall|j: int| 0 <= j < n ==> text@[j] == #[trigger] word@[j]);
        }
    }
    if text.len() < n {
        return None;
    }
    let mut k: usize = 0;
    while k < n
        invariant
            k <= n,
            n == word@.len(),
            n <= text@.len(),
            forall|j: int| 0 <= j < k ==> text@[j] == #[trigger] word@[j],
            lit@.is_prefix_of(i@) ==> forall|j: int| 0 <= j < n ==> text@[j] == #[trigger] word@[j],
        decreases n - k,
    {
        if text[k] != word[k] {
            return None;
        }
        k += 1;
    }
    proof {
        assert forall|j: int| 0 <= j < n implies #[trigger] i.spec_bytes()[j] <= 0x7f by {
            assert(text@[j] == word@[j]);
            assert(word@[j] == lit@[j] as u8);
        }
        lemma_ascii_prefix(i@, n as int);
        assert forall|j: int| 0 <= j < n implies i@[j] == lit@[j] by {
            assert(i@[j] == text@[j] as char);
            assert(text@[j] == word@[j]);
            assert(word@[j] == lit@[j] as u8);
        }
        assert(lit@ =~= i@.subrange(0, n as int));
    }
    let (_, rest) = split_ascii_prefix(i, n);
    Some(rest)
}

/// Takes the longest non-empty run of characters of `alphabet` from the front
/// of `i`: what is left, and the run.
fn token(i: &str, alphabet: Alphabet) -> (r: Option<(&str, &str)>)
    ensures
        r.deep_view() == grammar::token(i@, alphabet),
{
    let text = i.as_bytes();
    let mut n: usize = 0;
    while n < text.len() && alphabet.accepts(text[n] as char)
        invariant
            n <= text@.len(),
            forall|j: int| 0 <= j < n ==> alphabet.contains(#[trigger] text@[j] as char),
        decreases text@.len() - n,
    {
        n += 1;
    }
    proof {
        assert forall|j: int| 0 <= j < n implies #[trigger] i.spec_bytes()[j] <= 0x7f by {
            alphabet.lemma_contains_ascii(text@[j] as char);
        }
        lemma_ascii_prefix(i@, n as int);
    }
    let (found, rest) = split_ascii_prefix(i, n);
    proof {
        let p = alphabet.predicate();
        assert forall|j: int| 0 <= j < n implies p(#[trigger] i@[j]) by {
            assert(alphabet.contains(text@[j] as char));
        }
        if n < i@.len() {
            lemma_encode_empty(rest@);
            lemma_first_byte(rest@);
            assert(rest@[0] == i@[n as int]);
            assert(rest.spec_bytes()[0] == text@[n as int]);
            if alphabet.contains(rest@[0]) {
                alphabet.lemma_contains_ascii(rest@[0]);
            }
            assert(!p(i@[n as int]));
        }
        grammar::lemma_prefix_len_unique(i@, p, n as int);
    }
    if n == 0 {
        None
    } else {
        Some((rest, found))
    }
}

/// Strips one line ending, `\n` or `\r\n`, from the front of `i`.
pub fn line_ending(i: &str) -> (r: Option<&str>)
    ensures
        r.deep_view() == grammar::line_ending(i@),
{
    proof {
        reveal_strlit("\n");
        reveal_strlit("\r\n");
    }
    match literal(i, "\n") {
        Some(rest) => Some(rest),
        None => literal(i, "\r\n"),
    }
}

/// Skips the first line of `i`, its line ending included.
pub fn skip_line(i: &str) -> (r: Option<&str>)
    ensures
        r.deep_view() == grammar::skip_line(i@),
{
    let text = i.as_bytes();
    let mut n: usize = 0;
    while n < text.len() && text[n] != 0x0a
        invariant
            n <= text@.len(),
            forall|j: int| 0 <= j < n ==> #[trigger] text@[j] != 0x0a,
        decreases text@.len() - n,
    {
        n += 1;
    }
    let ghost p = grammar::within_line();
    if n == text.len() {
        proof {
            assert forall|j: int| 0 <= j < i@.len() implies p(#[trigger] i@[j]) by {
                if i@[j] == '\n' {
                    lemma_ascii_char_has_byte(i@, j);
                }
            }
            grammar::lemma_prefix_len_unique(i@, p, i@.len() as int);
        }
        None
    } else {
        let (line, tail) = split_at_boundary(i, n);
        proof {
            lemma_encode_empty(tail@);
            lemma_first_byte(tail@);
            assert(tail.spec_bytes()[0] == text@[n as int]);
            assert(tail@[0] == '\n');
            assert forall|j: int| 0 <= j < line@.len() implies p(#[trigger] i@[j]) by {
                assert(i@[j] == line@[j]);
                if line@[j] == '\n' {
                    lemma_ascii_char_has_byte(line@, j);
                }
            }
            assert(i@[line@.len() as int] == tail@[0]);
            grammar::lemma_prefix_len_unique(i@, p, line@.len() as int);
            assert(tail@.skip(1) =~= i@.skip(line@.len() as int + 1));
        }
        let (_, rest) = split_ascii_prefix(tail, 1);
        Some(rest)
    }
}

/// Recognises the comment character `#`.
pub fn comment_char(i: &str) -> (r: Result<(&str, ()), ParseError>)
    ensures
        outcome(r) == grammar::comment_char(i@),
{
    proof {
        reveal_strlit("#");
    }
    match literal(i, "#") {
        Some(rest) => Ok((rest, ())),
        None => Err(ParseError::MissingHeaderMarker),
    }
}

/// Recognises the header marker `#!`: returns what follows it, and the
/// marker.
pub fn shebang_sequence(i: &str) -> (r: Result<(&str, &str), ParseError>)
    ensures
        outcome(r) == grammar::shebang_sequence(i@),
{
    proof {
        reveal_strlit("#!");
    }
    match literal(i, "#!") {
        Some(rest) => Ok((rest, "#!")),
        None => Err(ParseError::MissingHeaderMarker),
    }
}

/// Takes the payload of a line, all that follows the header marker, and
/// leaves nothing.
pub fn shebang_commands(i: &str) -> (r: Result<(&str, &str), ParseError>)
    ensures
        outcome(r) == grammar::shebang_commands(i@),
{
    proof {
        reveal_strlit("");
    }
    match shebang_sequence(i) {
        Ok((payload, _)) => {
            assert(""@ =~= Seq::<char>::empty());
            Ok(("", payload))
        },
        Err(e) => Err(e),
    }
}

/// What a call of [`arguments`] returned, as mathematical values.
spec fn remainder(r: Result<&str, ParseError>) -> Result<Seq<char>, ParseError> {
    match r {
        Ok(arguments) => Ok(arguments@),
        Err(e) => Err(e),
    }
}

/// Strips the marker and the ASCII literal `keyword` from the front of `i`.
fn arguments<'a>(i: &'a str, keyword: &str) -> (r: Result<&'a str, ParseError>)
    requires
        is_ascii_chars(keyword@),
    ensures
        remainder(r) == grammar::arguments(i@, keyword@),
{
    match shebang_commands(i) {
        Err(e) => Err(e),
        Ok((_, payload)) => match literal(payload, keyword) {
            None => Err(ParseError::UnknownDirective),
            Some(arguments) => Ok(arguments),
        },
    }
}

/// Recognises a directive of one argument.
fn one_argument<'a>(i: &'a str, keyword: &str, alphabet: Alphabet) -> (r: Result<
    (&'a str, String),
    ParseError,
>)
    requires
        is_ascii_chars(keyword@),
    ensures
        outcome(r) == grammar::one_argument(i@, keyword@, alphabet),
{
    match arguments(i, keyword) {
        Err(e) => Err(e),
        Ok(arguments) => match token(arguments, alphabet) {
            None => Err(ParseError::MalformedArgument),
            Some((rest, found)) => Ok((rest, found.to_owned())),
        },
    }
}

/// Recognises a directive of two arguments.
fn two_arguments<'a>(i: &'a str, keyword: &str, alphabet: Alphabet) -> (r: Result<
    (&'a str, (String, String)),
    ParseError,
>)
    requires
        is_ascii_chars(keyword@),
    ensures
        outcome(r) == grammar::two_arguments(i@, keyword@, alphabet),
{
    proof {
        reveal_strlit(" ");
    }
    let arguments = match arguments(i, keyword) {
        Err(e) => {
            return Err(e);
        },
        Ok(arguments) => arguments,
    };
    let (after_first, first) = match token(arguments, alphabet) {
        None => {
            return Err(ParseError::MalformedArgument);
        },
        Some(found) => found,
    };
    let after_blank = match literal(after_first, " ") {
        None => {
            return Err(ParseError::MalformedArgument);
        },
        Some(rest) => rest,
    };
    match token(after_blank, alphabet) {
        None => Err(ParseError::MalformedArgument),
        Some((rest, second)) => Ok((rest, (first.to_owned(), second.to_owned()))),
    }
}

/// Recognises `#!pure`.
pub fn pure_match(i: &str) -> (r: Result<(&str, ShebangArg), ParseError>)
    ensures
        outcome(r) == grammar::pure_match(i@),
{
    proof {
        reveal_strlit("pure");
    }
    match arguments(i, "pure") {
        Err(e) => Err(e),
        Ok(rest) => Ok((rest, ShebangArg::PureLine(true))),
    }
}

/// Recognises an identifier at the front of `i`.
pub fn command_identifier(i: &str) -> (r: Result<(&str, String), ParseError>)
    ensures
        outcome(r) == grammar::command_identifier(i@),
{
    match token(i, Alphabet::Identifier) {
        None => Err(ParseError::MalformedArgument),
        Some((rest, found)) => Ok((rest, found.to_owned())),
    }
}

/// Recognises the name of a package, which is an identifier.
pub fn package_identifier(i: &str) -> (r: Result<(&str, String), ParseError>)
    ensures
        outcome(r) == grammar::package_identifier(i@),
{
    command_identifier(i)
}

/// Recognises a reference at the front of `i`.
pub fn nix_url_reference_identifier(i: &str) -> (r: Result<(&str, String), ParseError>)
    ensures
        outcome(r) == grammar::nix_url_reference_identifier(i@),
{
    match token(i, Alphabet::Reference) {
        None => Err(ParseError::MalformedArgument),
        Some((rest, found)) => Ok((rest, found.to_owned())),
    }
}

/// Recognises `#!command <identifier>`.
pub fn command_match(i: &str) -> (r: Result<(&str, ShebangArg), ParseError>)
    ensures
        outcome(r) == grammar::command_match(i@),
{
    proof {
        reveal_strlit("command ");
    }
    match one_argument(i, "command ", Alphabet::Identifier) {
        Err(e) => Err(e),
        Ok((rest, name)) => Ok((rest, ShebangArg::CommandLine(name))),
    }
}

/// Recognises `#!package <identifier>`.
pub fn package_match(i: &str) -> (r: Result<(&str, ShebangArg), ParseError>)
    ensures
        outcome(r) == grammar::package_match(i@),
{
    proof {
        reveal_strlit("package ");
    }
    match one_argument(i, "package ", Alphabet::Identifier) {
        Err(e) => Err(e),
        Ok((rest, name)) => Ok((rest, ShebangArg::PackageLine(name))),
    }
}

/// Recognises `#!registry <reference> <reference>`.
pub fn nix_registry_match(i: &str) -> (r: Result<(&str, ShebangArg), ParseError>)
    ensures
        outcome(r) == grammar::nix_registry_match(i@),
{
    proof {
        reveal_strlit("registry ");
    }
    match two_arguments(i, "registry ", Alphabet::Reference) {
        Err(e) => Err(e),
        Ok((rest, (old_ref, new_ref))) => {
            let registry_ref = NixRegistryRef { old_ref, new_ref };
            Ok((rest, ShebangArg::NixRegistryLine(registry_ref)))
        },
    }
}

/// Recognises `#!nix-option <identifier> <identifier>`.
pub fn nix_option_match(i: &str) -> (r: Result<(&str, ShebangArg), ParseError>)
    ensures
        outcome(r) == grammar::nix_option_match(i@),
{
    proof {
        reveal_strlit("nix-option ");
    }
    match two_arguments(i, "nix-option ", Alphabet::Identifier) {
        Err(e) => Err(e),
        Ok((rest, (key, value))) => Ok((rest, ShebangArg::NixOptionLine(NixOption { key, value }))),
    }
}

/// Recognises one directive of any kind. The five recognizers are tried in
/// the order option, registry, purity, command, package, and the first match
/// is returned.
pub fn any_arg_match(i: &str) -> (r: Result<(&str, ShebangArg), ParseError>)
    ensures
        outcome(r) == grammar::any_arg_match(i@),
        r matches Ok((_, arg)) ==> arg@.wf(),
{
    proof {
        law_recognised_directive_is_rendered(i@);
    }
    let option = match nix_option_match(i) {
        Ok(found) => {
            return Ok(found);
        },
        Err(e) => e,
    };
    let registry = match nix_registry_match(i) {
        Ok(found) => {
            return Ok(found);
        },
        Err(e) => e,
    };
    match pure_match(i) {
        Ok(found) => {
            return Ok(found);
        },
        Err(_) => {},
    }
    let command = match command_match(i) {
        Ok(found) => {
            return Ok(found);
        },
        Err(e) => e,
    };
    let package = match package_match(i) {
        Ok(found) => {
            return Ok(found);
        },
        Err(e) => e,
    };
    if option == ParseError::MissingHeaderMarker {
        Err(ParseError::MissingHeaderMarker)
    } else if option == ParseError::MalformedArgument || registry == ParseError::MalformedArgument
        || command == ParseError::MalformedArgument || package == ParseError::MalformedArgument {
        Err(ParseError::MalformedArgument)
    } else {
        Err(ParseError::UnknownDirective)
    }
}

/// One more directive after a line ending extends the block that was read
/// so far.
proof fn lemma_block_grows(
    read: Seq<Directive>,
    rest: Seq<char>,
    line: Seq<char>,
    after: Seq<char>,
    directive: Directive,
)
    requires
        grammar::line_ending(rest) == Some(line),
        grammar::any_arg_match(line) == Ok::<_, ParseError>((after, directive)),
    ensures
        after.len() < rest.len(),
        grammar::more_args(rest).0 == grammar::more_args(after).0,
        read + grammar::more_args(rest).1 == read.push(directive) + grammar::more_args(after).1,
{
    grammar::lemma_line_ending(rest);
    grammar::lemma_any_arg_match_consumes(line);
    assert(read + (seq![directive] + grammar::more_args(after).1) =~= read.push(directive)
        + grammar::more_args(after).1);
}

/// The block that was read so far is complete where no line ending, or no
/// directive after it, follows.
proof fn lemma_block_ends(read: Seq<Directive>, rest: Seq<char>)
    requires
        grammar::line_ending(rest) matches Some(line) ==> grammar::any_arg_match(line) is Err,
    ensures
        grammar::more_args(rest).0 == rest,
        read + grammar::more_args(rest).1 == read,
{
    assert(read + Seq::empty() =~= read);
}

/// Reads the directive block: zero or more directives, with one line ending
/// between each two. Reading stops at the first line that is no directive;
/// what is left begins right after the last directive. This never fails.
pub fn many_arg_match(i: &str) -> (r: Result<(&str, Vec<ShebangArg>), ParseError>)
    ensures
        outcome(r) == Ok::<_, ParseError>(grammar::many_arg_match(i@)),
        r matches Ok((_, args)) ==> forall|k: int| 0 <= k < args.len() ==> (#[trigger] args[k])@.wf(),
{
    let mut args: Vec<ShebangArg> = Vec::new();
    let mut rest = i;
    match any_arg_match(i) {
        Err(_) => {
            assert(args.deep_view() =~= Seq::empty());
            return Ok((i, args));
        },
        Ok((after, arg)) => {
            args.push(arg);
            rest = after;
            assert(args.deep_view() =~= seq![arg@]);
        },
    }
    loop
        invariant
            grammar::many_arg_match(i@) == (
                grammar::more_args(rest@).0,
                args.deep_view() + grammar::more_args(rest@).1,
            ),
            forall|k: int| 0 <= k < args.len() ==> (#[trigger] args[k])@.wf(),
        decreases rest@.len(),
    {
        let line = match line_ending(rest) {
            None => {
                proof {
                    lemma_block_ends(args.deep_view(), rest@);
                }
                return Ok((rest, args));
            },
            Some(line) => line,
        };
        match any_arg_match(line) {
            Err(_) => {
                proof {
                    lemma_block_ends(args.deep_view(), rest@);
                }
                return Ok((rest, args));
            },
            Ok((after, arg)) => {
                let ghost read = args.deep_view();
                proof {
                    lemma_block_grows(read, rest@, line@, after@, arg@);
                }
                args.push(arg);
                rest = after;
                assert(args.deep_view() =~= read.push(arg@));
            },
        }
    }
}

/// What a call of [`blank_line`] or [`terminator`] returned, as mathematical
/// values.
pub open spec fn body_outcome(r: Result<&str, ParseError>) -> Result<Seq<char>, ParseError> {
    match r {
        Ok(body) => Ok(body@),
        Err(e) => Err(e),
    }
}

/// Reads the blank line that closes the header block, at the start of a
/// line, and returns the body that follows it.
pub fn blank_line(i: &str) -> (r: Result<&str, ParseError>)
    ensures
        body_outcome(r) == grammar::blank_line(i@),
{
    if i.is_empty() {
        return Err(ParseError::MissingTerminator);
    }
    match line_ending(i) {
        Some(body) => Ok(body),
        None => match any_arg_match(i) {
            Err(ParseError::MalformedArgument) => Err(ParseError::MalformedArgument),
            _ => Err(ParseError::UnknownDirective),
        },
    }
}

/// Reads what must follow the directive block: the ending of the last
/// directive's line, if the block held a directive, and the blank line.
/// Returns the body.
pub fn terminator(i: &str, after_directive: bool) -> (r: Result<&str, ParseError>)
    ensures
        body_outcome(r) == grammar::terminator(i@, after_directive),
{
    if !after_directive {
        return blank_line(i);
    }
    if i.is_empty() {
        return Err(ParseError::MissingTerminator);
    }
    match line_ending(i) {
        Some(line) => blank_line(line),
        None => Err(ParseError::MalformedArgument),
    }
}

/// Captures the body: all of `i`, untouched. Returns what is left, which is
/// nothing, and the body.
pub fn body(i: &str) -> (r: (&str, &str))
    ensures
        (r.0@, r.1@) == grammar::body(i@),
{
    proof {
        reveal_strlit("");
    }
    assert(""@ =~= Seq::<char>::empty());
    ("", i)
}

/// Checks that no text is left.
pub fn end_of_input(i: &str) -> (r: Result<(), ParseError>)
    ensures
        r == grammar::end_of_input(i@),
{
    if i.is_empty() {
        Ok(())
    } else {
        Err(ParseError::IncompleteConsumption)
    }
}

/// What [`parse_nix_runner_file`] returned, as mathematical values.
pub open spec fn parsed(r: Result<(NixRunnerArgs, &str), ParseError>) -> Result<
    (crate::config::RunnerConfiguration, Seq<char>),
    ParseError,
> {
    match r {
        Ok((args, body)) => Ok((args@, body@)),
        Err(e) => Err(e),
    }
}

/// Parses a whole script: the interpreter line, which must begin with `#!`
/// and is otherwise ignored, the directive block, the blank line that closes
/// it, and the body. Returns the configuration that the directives amount to
/// and the body.
pub fn parse_nix_runner_file(i: &str) -> (r: Result<(NixRunnerArgs, &str), ParseError>)
    ensures
        parsed(r) == grammar::parse_nix_runner_file(i@),
        r matches Ok((args, _)) ==> args@.wf(),
{
    proof {
        law_parsed_configuration_is_well_formed(i@);
    }
    let interpreter = match shebang_sequence(i) {
        Err(e) => {
            return Err(e);
        },
        Ok((interpreter, _)) => interpreter,
    };
    let header = match skip_line(interpreter) {
        None => {
            return Err(ParseError::MissingTerminator);
        },
        Some(header) => header,
    };
    let (rest, args) = match many_arg_match(header) {
        Err(e) => {
            return Err(e);
        },
        Ok(found) => found,
    };
    let text = match terminator(rest, args.len() > 0) {
        Err(e) => {
            return Err(e);
        },
        Ok(text) => text,
    };
    let (end, body) = body(text);
    match end_of_input(end) {
        Err(e) => Err(e),
        Ok(_) => Ok((NixRunnerArgs::from_directives(args), body)),
    }
}

} // verus!
